//! Migration configuration: the skip list, per-tag initialization arguments,
//! the optional initialization order, the execution mode toggle and the
//! deployment seed.

use vstd::prelude::*;

verus! {

/// Raw initialization arguments configured for one resource tag.  Each item
/// is the textual form of one field element (hexadecimal, `0x`-prefixed),
/// decoded when the initialization calls are planned.
#[derive(Debug)]
pub struct InitArgs {
    pub tag: String,
    pub items: Vec<String>,
}

/// Configuration of one migration run.
#[derive(Debug)]
pub struct MigrationConfig {
    /// Tags of resources excluded from every synchronization step.
    pub skip_tags: Vec<String>,
    /// Per-tag raw initialization arguments; a tag with no entry gets an
    /// empty argument list.
    pub init_args: Vec<InitArgs>,
    /// Tags whose initialization calls must run in this order, after the
    /// calls of every tag not listed here.  Empty when no order is imposed.
    pub order_inits: Vec<String>,
    /// Disables batched (multicall) execution; calls then run sequentially.
    pub disable_multicall: bool,
    /// Seed from which the registry's deterministic deployment salt is
    /// derived.
    pub seed: String,
    /// Restricted mode: the root registry is left untouched.
    pub guest: bool,
}

impl MigrationConfig {
    /// Whether `tag` is on the skip list.
    pub open spec fn spec_is_skipped(&self, tag: Seq<char>) -> bool {
        exists|i: int| 0 <= i < self.skip_tags@.len() && (#[trigger] self.skip_tags@[i])@ == tag
    }

    /// Executable check matching [`MigrationConfig::spec_is_skipped`].
    pub fn is_skipped(&self, tag: &String) -> (r: bool)
        ensures
            r == self.spec_is_skipped(tag@),
    {
        let mut i: usize = 0;
        while i < self.skip_tags.len()
            invariant
                0 <= i <= self.skip_tags@.len(),
                forall|k: int| 0 <= k < i ==> (#[trigger] self.skip_tags@[k])@ != tag@,
            decreases self.skip_tags@.len() - i,
        {
            if self.skip_tags[i] == *tag {
                return true;
            }
            i += 1;
        }
        false
    }

    /// Index of the first configured argument entry for `tag`, if any.
    pub open spec fn spec_init_args_index(&self, tag: Seq<char>) -> Option<int> {
        if exists|i: int| 0 <= i < self.init_args@.len() && (#[trigger] self.init_args@[i]).tag@
            == tag {
            Some(
                choose|i: int|
                    0 <= i < self.init_args@.len() && (#[trigger] self.init_args@[i]).tag@ == tag
                        && forall|j: int|
                        0 <= j < i ==> (#[trigger] self.init_args@[j]).tag@ != tag,
            )
        } else {
            None
        }
    }

    /// The raw argument items configured for `tag`: those of its first
    /// entry, or none.
    pub open spec fn spec_init_items_for(&self, tag: Seq<char>) -> Option<Seq<Seq<char>>> {
        match self.spec_init_args_index(tag) {
            Some(i) => Some(self.init_args@[i].items.deep_view()),
            None => None,
        }
    }

    /// First configured argument entry for `tag`, if any.
    pub fn init_args_for(&self, tag: &String) -> (r: Option<&Vec<String>>)
        ensures
            match r {
                Some(items) => self.spec_init_items_for(tag@) == Some(items.deep_view()),
                None => self.spec_init_items_for(tag@) is None,
            },
    {
        let mut i: usize = 0;
        while i < self.init_args.len()
            invariant
                0 <= i <= self.init_args@.len(),
                forall|k: int| 0 <= k < i ==> (#[trigger] self.init_args@[k]).tag@ != tag@,
            decreases self.init_args@.len() - i,
        {
            if self.init_args[i].tag == *tag {
                proof {
                    let w = i as int;
                    assert(0 <= w < self.init_args@.len() && self.init_args@[w].tag@ == tag@
                        && forall|j: int|
                        0 <= j < w ==> (#[trigger] self.init_args@[j]).tag@ != tag@);
                    let c = choose|ci: int|
                        0 <= ci < self.init_args@.len() && (#[trigger] self.init_args@[ci]).tag@
                            == tag@ && forall|j: int|
                            0 <= j < ci ==> (#[trigger] self.init_args@[j]).tag@ != tag@;
                    if c < w {
                        assert(self.init_args@[c].tag@ != tag@);
                    }
                    if w < c {
                        assert(self.init_args@[w].tag@ != tag@);
                    }
                    assert(c == w);
                }
                return Some(&self.init_args[i].items);
            }
            i += 1;
        }
        None
    }

    /// Position of the first occurrence of `tag` in the initialization
    /// order list, if any.
    pub open spec fn spec_order_position(&self, tag: Seq<char>) -> Option<int> {
        if exists|i: int| 0 <= i < self.order_inits@.len() && (#[trigger] self.order_inits@[i])@
            == tag {
            Some(
                choose|i: int|
                    0 <= i < self.order_inits@.len() && (#[trigger] self.order_inits@[i])@ == tag
                        && forall|j: int|
                        0 <= j < i ==> (#[trigger] self.order_inits@[j])@ != tag,
            )
        } else {
            None
        }
    }

    /// Position of the first occurrence of `tag` in the initialization
    /// order list, if any.
    pub fn order_position(&self, tag: &String) -> (r: Option<usize>)
        ensures
            match r {
                Some(p) => self.spec_order_position(tag@) == Some(p as int),
                None => self.spec_order_position(tag@) is None,
            },
    {
        let mut i: usize = 0;
        while i < self.order_inits.len()
            invariant
                0 <= i <= self.order_inits@.len(),
                forall|k: int| 0 <= k < i ==> (#[trigger] self.order_inits@[k])@ != tag@,
            decreases self.order_inits@.len() - i,
        {
            if self.order_inits[i] == *tag {
                proof {
                    let w = i as int;
                    assert(0 <= w < self.order_inits@.len() && self.order_inits@[w]@ == tag@
                        && forall|j: int|
                        0 <= j < w ==> (#[trigger] self.order_inits@[j])@ != tag@);
                    let c = choose|ci: int|
                        0 <= ci < self.order_inits@.len() && (#[trigger] self.order_inits@[ci])@
                            == tag@ && forall|j: int|
                            0 <= j < ci ==> (#[trigger] self.order_inits@[j])@ != tag@;
                    if c < w {
                        assert(self.order_inits@[c]@ != tag@);
                    }
                    if w < c {
                        assert(self.order_inits@[w]@ != tag@);
                    }
                    assert(c == w);
                }
                return Some(i);
            }
            i += 1;
        }
        None
    }

    /// Whether calls are flushed as one atomic batch (the default) rather
    /// than one by one.
    pub fn do_multicall(&self) -> (r: bool)
        ensures
            r == !self.disable_multicall,
    {
        !self.disable_multicall
    }
}

} // verus!
