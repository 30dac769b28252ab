use vstd::prelude::*;

use crate::status_bar::shorthands::{shorthand_result, Shorthand};

verus! {

/// An ordered collection of shorthands; the first one that applies to a
/// string wins.
pub struct List {
    shorthands: Vec<Shorthand>,
}

impl Default for List {
    fn default() -> (r: Self)
        ensures
            r.entries().len() == 0,
    {
        List { shorthands: Vec::new() }
    }
}

impl List {
    /// The rules of the list, in order.
    pub closed spec fn entries(&self) -> Seq<Shorthand> {
        self.shorthands@
    }

    /// Add one rule to the end of the list, or reject the whole list if
    /// the rule does not build.
    pub fn add(self, pattern: &str, format: &str) -> (r: Option<Self>)
        ensures
            r is Some <==> crate::status_bar::shorthands::regex_compiles(pattern@)
                && crate::status_bar::shorthands::regex_group_count(pattern@)
                > crate::status_bar::shorthands::max_format_arg(format@),
            r matches Some(l) ==> l.entries().drop_last() == self.entries() && l.entries().last()
                .pattern_view() == pattern@ && l.entries().last().format_view() == format@
                && l.entries().len() == self.entries().len() + 1,
    {
        let mut list = self;
        let ghost orig = list.shorthands@;
        let sh = match Shorthand::try_new(pattern, format) {
            Some(sh) => sh,
            Option::None => {
                return None;
            },
        };
        list.shorthands.push(sh);
        proof {
            assert(list.shorthands@.drop_last() =~= orig);
        }
        Some(list)
    }

    /// Apply the first shorthand that matches the target, if any.
    pub fn apply_to_string(&self, target: &str) -> (r: Option<String>)
        ensures
            match r {
                Some(out) => exists|k: int|
                    0 <= k < self.entries().len() && Some(out@) == shorthand_result(
                        (#[trigger] self.entries()[k]).pattern_view(),
                        self.entries()[k].format_view(),
                        target@,
                    ) && (forall|j: int|
                        0 <= j < k ==> shorthand_result(
                            (#[trigger] self.entries()[j]).pattern_view(),
                            self.entries()[j].format_view(),
                            target@,
                        ) is None),
                Option::None => forall|k: int|
                    0 <= k < self.entries().len() ==> shorthand_result(
                        (#[trigger] self.entries()[k]).pattern_view(),
                        self.entries()[k].format_view(),
                        target@,
                    ) is None,
            },
    {
        let mut k: usize = 0;
        while k < self.shorthands.len()
            invariant
                k <= self.shorthands@.len(),
                forall|j: int|
                    0 <= j < k ==> shorthand_result(
                        (#[trigger] self.shorthands@[j]).pattern_view(),
                        self.shorthands@[j].format_view(),
                        target@,
                    ) is None,
            decreases self.shorthands@.len() - k,
        {
            let res = self.shorthands[k].apply_to_string(target);
            if res.is_some() {
                proof {
                    let ki = k as int;
                    assert(shorthand_result(
                        self.shorthands@[ki].pattern_view(),
                        self.shorthands@[ki].format_view(),
                        target@,
                    ) is Some);
                }
                return res;
            }
            k = k + 1;
        }
        None
    }
}

} // verus!
