//! What users are told when a block was added.
use crate::sharechain::p2chain::ChainAddResult;
use crate::text::{append_short_hex, copy_text, decimal_text};
use crate::types::FixedHash;
use vstd::prelude::*;
use vstd::string::*;

verus! {

/// A height and the start of a hash, each byte without a leading zero.
pub open spec fn block_name(height: u64, hash: FixedHash) -> Seq<char> {
    crate::text::decimal(height as nat) + "("@ + crate::text::short_hex(hash.bytes()[0]) + crate::text::short_hex(
        hash.bytes()[1],
    ) + crate::text::short_hex(hash.bytes()[2]) + crate::text::short_hex(hash.bytes()[3]) + ")"@
}

/// The first `n` of the missing blocks, each in quotes.
pub open spec fn missing_names(missing: Seq<(FixedHash, u64)>, n: int) -> Seq<char>
    decreases n,
{
    if n <= 0 {
        Seq::empty()
    } else {
        missing_names(missing, n - 1) + (if n == 1 {
            "\""@
        } else {
            ", \""@
        }) + block_name(missing[n - 1].1, missing[n - 1].0) + "\""@
    }
}

/// The line about the tip.
pub open spec fn tip_report(new_tip: Option<(FixedHash, u64)>) -> Seq<char> {
    match new_tip {
        Some(tip) => "Added new tip "@ + block_name(tip.1, tip.0) + "\n"@,
        None => "No new tip added\n"@,
    }
}

/// The line about missing blocks; none if no block is missing.
pub open spec fn missing_report(missing: Seq<(FixedHash, u64)>) -> Seq<char> {
    if missing.len() == 0 {
        Seq::empty()
    } else {
        "Missing blocks: ["@ + missing_names(missing, missing.len() as int) + "]\n"@
    }
}

fn append_block_name(text: &mut String, height: u64, hash: FixedHash)
    ensures
        final(text)@ == old(text)@ + block_name(height, hash),
{
    let bytes = hash.to_vec();
    text.append(decimal_text(height).as_str());
    text.append("(");
    append_short_hex(text, bytes[0]);
    append_short_hex(text, bytes[1]);
    append_short_hex(text, bytes[2]);
    append_short_hex(text, bytes[3]);
    text.append(")");
    assert(text@ =~= old(text)@ + block_name(height, hash));
}

impl ChainAddResult {
    /// What adding a block led to, in words.
    pub fn report(&self) -> (text: String)
        ensures
            text@ == tip_report(self.new_tip) + missing_report(self.missing_blocks@),
    {
        let mut text = match self.new_tip {
            Some(tip) => {
                let mut text = copy_text("Added new tip ");
                append_block_name(&mut text, tip.1, tip.0);
                text.append("\n");
                text
            },
            None => copy_text("No new tip added\n"),
        };
        let ghost start = tip_report(self.new_tip);
        assert(text@ =~= start);
        if self.missing_blocks.len() > 0 {
            text.append("Missing blocks: [");
            let mut i: usize = 0;
            while i < self.missing_blocks.len()
                invariant
                    i <= self.missing_blocks@.len(),
                    text@ == start + "Missing blocks: ["@ + missing_names(self.missing_blocks@, i as int),
                decreases self.missing_blocks@.len() - i,
            {
                let ghost before = text@;
                text.append(if i == 0 { "\"" } else { ", \"" });
                append_block_name(&mut text, self.missing_blocks[i].1, self.missing_blocks[i].0);
                text.append("\"");
                i = i + 1;
                assert(text@ =~= start + "Missing blocks: ["@ + missing_names(self.missing_blocks@, i as int));
            }
            text.append("]\n");
        }
        assert(text@ =~= start + missing_report(self.missing_blocks@));
        text
    }
}

}
