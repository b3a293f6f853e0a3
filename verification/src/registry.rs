//! Read-only view over the display outputs the server has announced.
//!
//! An output is an opaque identity plus a human-readable name; equality is
//! identity-based. Name resolution finds the first output with exactly the
//! target name, or, for the `default` sentinel while nothing is bound yet,
//! the first output at all. Absence is represented by no match, never by an
//! error.

use vstd::prelude::*;
use crate::text::str_eq;

verus! {

/// One known display output.
pub struct OutputHandle {
    pub id: u64,
    pub name: String,
}

/// The currently known outputs, in announcement order.
pub struct OutputRegistry {
    pub outputs: Vec<OutputHandle>,
}

/// Whether output `i` of `outs` matches the target name: an exact name
/// match, or any output for the `default` sentinel while nothing is bound.
pub open spec fn output_matches(outs: Seq<OutputHandle>, i: int, target: Seq<char>, bound: bool) -> bool {
    outs[i].name@ == target || (target == "default"@ && !bound)
}

/// The identity of the first matching output, if any.
pub open spec fn first_match(outs: Seq<OutputHandle>, target: Seq<char>, bound: bool) -> Option<
    u64,
>
    decreases outs.len(),
{
    if outs.len() == 0 {
        None
    } else if output_matches(outs, 0, target, bound) {
        Some(outs[0].id)
    } else {
        first_match(outs.drop_first(), target, bound)
    }
}

/// A resolved identity always belongs to some known output.
pub proof fn lemma_first_match_known(outs: Seq<OutputHandle>, target: Seq<char>, bound: bool)
    requires
        first_match(outs, target, bound) is Some,
    ensures
        exists|i: int|
            0 <= i < outs.len() && outs[i].id == first_match(outs, target, bound)->0,
    decreases outs.len(),
{
    if outs.len() == 0 {
    } else if output_matches(outs, 0, target, bound) {
        assert(outs[0].id == first_match(outs, target, bound)->0);
    } else {
        lemma_first_match_known(outs.drop_first(), target, bound);
        let j = choose|j: int|
            0 <= j < outs.drop_first().len() && outs.drop_first()[j].id == first_match(
                outs.drop_first(),
                target,
                bound,
            )->0;
        assert(outs[j + 1] == outs.drop_first()[j]);
    }
}

/// Away from the `default` sentinel, resolution is by exact name: the
/// resolved output carries exactly the target name.
pub proof fn lemma_first_match_exact_name(outs: Seq<OutputHandle>, target: Seq<char>, bound: bool)
    requires
        target != "default"@ || bound,
        first_match(outs, target, bound) is Some,
    ensures
        exists|i: int|
            0 <= i < outs.len() && outs[i].id == first_match(outs, target, bound)->0
                && #[trigger] outs[i].name@ == target,
    decreases outs.len(),
{
    if outs.len() == 0 {
    } else if output_matches(outs, 0, target, bound) {
        assert(outs[0].name@ == target);
        assert(outs[0].id == first_match(outs, target, bound)->0);
    } else {
        lemma_first_match_exact_name(outs.drop_first(), target, bound);
        let j = choose|j: int|
            0 <= j < outs.drop_first().len() && outs.drop_first()[j].id == first_match(
                outs.drop_first(),
                target,
                bound,
            )->0 && #[trigger] outs.drop_first()[j].name@ == target;
        assert(outs[j + 1] == outs.drop_first()[j]);
    }
}

impl OutputRegistry {
    /// Whether an output with this identity is currently known.
    pub open spec fn spec_contains_id(self, id: u64) -> bool {
        exists|i: int| 0 <= i < self.outputs@.len() && self.outputs@[i].id == id
    }

    pub fn new() -> (r: OutputRegistry)
        ensures
            r.outputs@.len() == 0,
    {
        OutputRegistry { outputs: Vec::new() }
    }

    /// Whether the registry knows no output at all.
    pub fn is_empty(&self) -> (r: bool)
        ensures
            r == (self.outputs@.len() == 0),
    {
        self.outputs.len() == 0
    }

    /// Whether the output with this identity is still present.
    pub fn contains_id(&self, id: u64) -> (r: bool)
        ensures
            r == self.spec_contains_id(id),
    {
        let n = self.outputs.len();
        let mut i: usize = 0;
        while i < n
            invariant
                i <= n,
                n == self.outputs@.len(),
                forall|j: int| 0 <= j < i ==> self.outputs@[j].id != id,
            decreases n - i,
        {
            if self.outputs[i].id == id {
                return true;
            }
            i = i + 1;
        }
        false
    }

    /// The identity of the first output matching `target`; `bound` says
    /// whether some output is already bound, which disables the `default`
    /// fallback.
    pub fn resolve(&self, target: &str, bound: bool) -> (r: Option<u64>)
        ensures
            r == first_match(self.outputs@, target@, bound),
    {
        let n = self.outputs.len();
        let mut i: usize = 0;
        proof {
            assert(self.outputs@.skip(0) =~= self.outputs@);
        }
        while i < n
            invariant
                i <= n,
                n == self.outputs@.len(),
                first_match(self.outputs@, target@, bound) == first_match(
                    self.outputs@.skip(i as int),
                    target@,
                    bound,
                ),
            decreases n - i,
        {
            let ghost rest = self.outputs@.skip(i as int);
            proof {
                assert(rest[0] == self.outputs@[i as int]);
                assert(rest.drop_first() =~= self.outputs@.skip(i + 1));
            }
            let out = &self.outputs[i];
            if str_eq(out.name.as_str(), target) {
                return Some(out.id);
            }
            if !bound && str_eq(target, "default") {
                return Some(out.id);
            }
            i = i + 1;
        }
        proof {
            assert(self.outputs@.skip(n as int) =~= Seq::<OutputHandle>::empty());
        }
        None
    }
}

} // verus!
