//! Blocks that miners work on.
use crate::sharechain::p2block::{BlockView, P2Block};
use crate::types::FixedHash;
use vstd::prelude::*;

verus! {

/// The hashes of this many templates are remembered in order.
pub const MAX_STORED_TEMPLATES: usize = 100;

/// Blocks that miners work on, found by the hash of the main-chain block with a nonce of 0.
pub struct TemplateStore {
    /// The hashes of the last templates, oldest first.
    pub list_of_templates: Vec<FixedHash>,
    /// The templates; no hash occurs twice.
    pub template_store: Vec<(FixedHash, P2Block)>,
}

/// What a [`TemplateStore`] holds.
pub struct TemplatesView {
    pub order: Seq<FixedHash>,
    pub blocks: Map<FixedHash, BlockView>,
}

impl TemplateStore {
    /// The templates in order.
    pub open spec fn list(&self) -> Seq<(FixedHash, BlockView)> {
        self.template_store@.map_values(|t: (FixedHash, P2Block)| (t.0, t.1@))
    }

    /// No hash occurs twice, and not too many are remembered.
    pub open spec fn wf(&self) -> bool {
        crate::assoc::distinct_keys(self.list()) && self.list_of_templates@.len() <= MAX_STORED_TEMPLATES
    }

    /// No templates.
    pub fn new() -> (store: TemplateStore)
        ensures
            store.wf(),
            store@.order == Seq::<FixedHash>::empty(),
            store@.blocks == Map::<FixedHash, BlockView>::empty(),
    {
        let store = TemplateStore { list_of_templates: Vec::new(), template_store: Vec::new() };
        proof {
            crate::assoc::lemma_empty::<FixedHash, BlockView>();
            assert(store.list() =~= Seq::<(FixedHash, BlockView)>::empty());
        }
        store
    }

    fn position(&self, hash: &FixedHash) -> (place: Option<usize>)
        requires
            self.wf(),
        ensures
            place is Some <==> self@.blocks.dom().contains(*hash),
            place matches Some(i) ==> i < self.template_store@.len() && self.list()[i as int] == (
                *hash,
                self@.blocks[*hash],
            ) && self.template_store@[i as int].1@ == self@.blocks[*hash],
    {
        let mut i: usize = 0;
        while i < self.template_store.len()
            invariant
                i <= self.template_store@.len(),
                self.wf(),
                forall|j: int| 0 <= j < i ==> (#[trigger] self.list()[j]).0 != *hash,
            decreases self.template_store@.len() - i,
        {
            assert(self.list()[i as int] == (self.template_store@[i as int].0, self.template_store@[i as int].1@));
            if self.template_store[i].0 == *hash {
                proof {
                    crate::assoc::lemma_key_at(self.list(), i as int);
                }
                return Some(i);
            }
            i = i + 1;
        }
        None
    }

    /// Saves a template.
    pub fn save(&mut self, hash: FixedHash, block: P2Block)
        requires
            old(self).wf(),
        ensures
            final(self).wf(),
            final(self)@ == old(self)@.saved(hash, block@),
    {
        let ghost order = self.list_of_templates@;
        let ghost before = self.list();
        let ghost view = block@;
        self.list_of_templates.push(hash);
        if self.list_of_templates.len() > MAX_STORED_TEMPLATES {
            self.list_of_templates.remove(0);
            assert(self.list_of_templates@ =~= order.push(hash).skip(1));
        }
        match self.position(&hash) {
            Some(i) => {
                proof {
                    crate::assoc::lemma_update(before, i as int, view);
                }
                self.template_store.set(i, (hash, block));
                assert(self.list() =~= before.update(i as int, (hash, view)));
            },
            None => {
                proof {
                    crate::assoc::lemma_push(before, hash, view);
                }
                self.template_store.push((hash, block));
                assert(self.list() =~= before.push((hash, view)));
            },
        }
    }

    /// A copy of a template.
    pub fn get(&self, hash: &FixedHash) -> (block: Option<P2Block>)
        requires
            self.wf(),
        ensures
            block is Some <==> self@.blocks.dom().contains(*hash),
            block matches Some(b) ==> b@ == self@.blocks[*hash],
    {
        match self.position(hash) {
            Some(i) => Some(self.template_store[i].1.clone()),
            None => None,
        }
    }
}

impl View for TemplateStore {
    type V = TemplatesView;

    open spec fn view(&self) -> TemplatesView {
        TemplatesView { order: self.list_of_templates@, blocks: crate::assoc::map_of(self.list()) }
    }
}

impl TemplatesView {
    /// Saves a template. The oldest hash is forgotten if there are too many; its template stays.
    pub open spec fn saved(self, hash: FixedHash, block: BlockView) -> TemplatesView {
        let order = self.order.push(hash);
        TemplatesView {
            order: if order.len() > MAX_STORED_TEMPLATES {
                order.skip(1)
            } else {
                order
            },
            blocks: self.blocks.insert(hash, block),
        }
    }
}

/// A saved template is found again, and saving it does not touch others.
pub proof fn law_saved_templates_are_found(store: TemplatesView, hash: FixedHash, block: BlockView, other: FixedHash)
    requires
        other != hash,
    ensures
        store.saved(hash, block).blocks.dom().contains(hash),
        store.saved(hash, block).blocks[hash] == block,
        store.saved(hash, block).blocks.dom().contains(other) == store.blocks.dom().contains(other),
        store.blocks.dom().contains(other) ==> store.saved(hash, block).blocks[other] == store.blocks[other],
        store.order.len() <= MAX_STORED_TEMPLATES ==> store.saved(hash, block).order.len() <= MAX_STORED_TEMPLATES,
{
}

}
