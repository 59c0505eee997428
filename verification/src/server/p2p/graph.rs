//! The share chain as a graph, in the language of Graphviz.
use crate::sharechain::p2block::{BlockView, P2Block};
use crate::text::{copy_text, decimal_text, to_hex};
use crate::types::FixedHash;
use vstd::prelude::*;
use vstd::string::*;

verus! {

/// Only this many uncles of a block are drawn.
pub const MAX_UNCLES_DRAWN: usize = 3;


/// How many characters at the start of an address are drawn.
pub const ADDRESS_START: usize = 6;

/// Where the end of an address starts that is drawn.
pub const ADDRESS_END: usize = 84;

/// The name of a hash.
pub open spec fn short_hash(hash: FixedHash) -> Seq<char> {
    crate::text::hex(hash.bytes().take(4))
}

/// What is drawn of an address: its start and its end. A short one has no end.
pub open spec fn short_address(text: Seq<char>) -> Seq<char> {
    (if text.len() > ADDRESS_START {
        text.take(ADDRESS_START as int)
    } else {
        text
    }) + ".."@ + (if text.len() > ADDRESS_END {
        text.skip(ADDRESS_END as int)
    } else {
        Seq::empty()
    })
}

/// What is drawn of a tip.
pub open spec fn tip_lines(tip: Option<(u64, FixedHash)>) -> Seq<char> {
    match tip {
        Some((height, hash)) => "comment=\""@ + crate::text::decimal(height as nat) + " - "@ + short_hash(hash)
            + "\"\nB"@ + short_hash(hash) + " [style=\"bold,filled\" penwidth=2]\n"@,
        None => Seq::empty(),
    }
}

/// What is drawn of a block, with its difficulty as users read it and the text of its miner's address.
pub open spec fn block_line(block: BlockView, difficulty: Seq<char>, miner: Seq<char>) -> Seq<char> {
    "B"@ + short_hash(block.hash) + " [label=\""@ + crate::text::decimal(block.height as nat) + " - "@ + short_hash(
        block.hash,
    ) + " "@ + (if block.verified {
        ""@
    } else {
        "UNVERIFIED "@
    }) + difficulty + " "@ + short_address(miner) + "\"]\n"@
}

/// The line from a block to its parent.
pub open spec fn parent_line(block: BlockView) -> Seq<char> {
    "B"@ + short_hash(block.hash) + " -> B"@ + short_hash(block.prev_hash) + "\n"@
}

/// The lines from a block to its first `n` uncles.
pub open spec fn uncle_lines(block: BlockView, n: int) -> Seq<char>
    decreases n,
{
    if n <= 0 {
        Seq::empty()
    } else {
        uncle_lines(block, n - 1) + "B"@ + short_hash(block.hash) + " -> B"@ + short_hash(block.uncles[n - 1].1)
            + " [style=dotted]\n"@
    }
}

/// The line from a block to those of its uncles that are not drawn.
pub open spec fn others_line(block: BlockView) -> Seq<char> {
    if block.uncles.len() > MAX_UNCLES_DRAWN {
        "B"@ + short_hash(block.hash) + " -> B"@ + short_hash(block.hash) + "others [style=dotted, label=\""@
            + crate::text::decimal((block.uncles.len() - MAX_UNCLES_DRAWN) as nat) + " others\"]\n"@
    } else {
        Seq::empty()
    }
}

/// All that is drawn of a block.
pub open spec fn block_lines(block: BlockView, difficulty: Seq<char>, miner: Seq<char>) -> Seq<char> {
    block_line(block, difficulty, miner) + parent_line(block) + uncle_lines(
        block,
        if block.uncles.len() > MAX_UNCLES_DRAWN {
            MAX_UNCLES_DRAWN as int
        } else {
            block.uncles.len() as int
        },
    ) + others_line(block)
}

fn hash_name(hash: &FixedHash) -> (name: String)
    ensures
        name@ == short_hash(*hash),
{
    let bytes = hash.to_vec();
    let mut start: Vec<u8> = Vec::new();
    start.push(bytes[0]);
    start.push(bytes[1]);
    start.push(bytes[2]);
    start.push(bytes[3]);
    assert(start@ =~= hash.bytes().take(4));
    to_hex(start.as_slice())
}

/// What is drawn of an address.
pub fn shorten_address(text: &str) -> (short: String)
    ensures
        short@ == short_address(text@),
{
    let len = text.unicode_len();
    let mut short = if len > ADDRESS_START {
        let start = text.substring_char(0, ADDRESS_START);
        assert(start@ =~= text@.take(ADDRESS_START as int));
        copy_text(start)
    } else {
        copy_text(text)
    };
    short.append("..");
    if len > ADDRESS_END {
        let end = text.substring_char(ADDRESS_END, len);
        assert(end@ =~= text@.skip(ADDRESS_END as int));
        short.append(end);
    }
    assert(short@ =~= short_address(text@));
    short
}

/// What stands before the blocks.
pub fn graph_start(tip: Option<(u64, FixedHash)>) -> (text: String)
    ensures
        text@ == "digraph B {\nnode [shape=\"box\"]\n"@ + tip_lines(tip),
{
    let mut text = copy_text("digraph B {\nnode [shape=\"box\"]\n");
    match tip {
        Some((height, hash)) => {
            let ghost before = text@;
            let name = hash_name(&hash);
            let number = decimal_text(height);
            text.append("comment=\"");
            text.append(number.as_str());
            text.append(" - ");
            text.append(name.as_str());
            text.append("\"\nB");
            text.append(name.as_str());
            text.append(" [style=\"bold,filled\" penwidth=2]\n");
            assert(text@ =~= before + tip_lines(tip));
        },
        None => {
            assert(text@ =~= text@ + tip_lines(tip));
        },
    }
    text
}

/// What is drawn of a block. `difficulty` is its target as users read it, and `miner` the text of its miner's address.
pub fn draw_block(block: &P2Block, difficulty: &str, miner: &str) -> (text: String)
    ensures
        text@ == block_lines(block@, difficulty@, miner@),
{
    let name = hash_name(&block.hash);
    let parent = hash_name(&block.prev_hash);
    let number = decimal_text(block.height);
    let address = shorten_address(miner);
    let mut text = copy_text("B");
    text.append(name.as_str());
    text.append(" [label=\"");
    text.append(number.as_str());
    text.append(" - ");
    text.append(name.as_str());
    text.append(" ");
    text.append(if block.verified { "" } else { "UNVERIFIED " });
    text.append(difficulty);
    text.append(" ");
    text.append(address.as_str());
    text.append("\"]\n");
    assert(text@ == block_line(block@, difficulty@, miner@));
    let ghost first = text@;
    text.append("B");
    text.append(name.as_str());
    text.append(" -> B");
    text.append(parent.as_str());
    text.append("\n");
    let ghost two = first + parent_line(block@);
    assert(text@ =~= two);
    let drawn: usize = if block.uncles.len() > MAX_UNCLES_DRAWN {
        MAX_UNCLES_DRAWN
    } else {
        block.uncles.len()
    };
    let mut i: usize = 0;
    assert(two + uncle_lines(block@, 0) =~= two);
    while i < drawn
        invariant
            i <= drawn <= block.uncles@.len(),
            name@ == short_hash(block.hash),
            text@ == two + uncle_lines(block@, i as int),
        decreases drawn - i,
    {
        let ghost before = uncle_lines(block@, i as int);
        let uncle = hash_name(&block.uncles[i].1);
        text.append("B");
        text.append(name.as_str());
        text.append(" -> B");
        text.append(uncle.as_str());
        text.append(" [style=dotted]\n");
        i = i + 1;
        assert(text@ =~= two + uncle_lines(block@, i as int));
    }
    let ghost three = two + uncle_lines(block@, drawn as int);
    if block.uncles.len() > MAX_UNCLES_DRAWN {
        let others = decimal_text((block.uncles.len() - MAX_UNCLES_DRAWN) as u64);
        text.append("B");
        text.append(name.as_str());
        text.append(" -> B");
        text.append(name.as_str());
        text.append("others [style=dotted, label=\"");
        text.append(others.as_str());
        text.append(" others\"]\n");
        assert(text@ =~= three + others_line(block@));
    } else {
        assert(text@ =~= three + others_line(block@));
    }
    text
}

}
