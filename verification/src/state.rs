//! Shared evaluation state: the variable store, the iteration counter and
//! the attachment slot of one top-level request.
//!
//! One `SharedState` is created per top-level request and threaded by
//! mutable reference through every nested evaluation, so sibling and nested
//! frames observe each other's writes.  The counter only ever grows and can
//! never pass [`ITER_LIMIT`].

use vstd::prelude::*;
use vstd::utf8::valid_utf8;

use crate::text::bytes_eq;

verus! {

/// Ceiling of the shared iteration budget: one unit per subtag invocation or
/// bounded-repetition step.
pub const ITER_LIMIT: u64 = 500;

/// The media kind of a produced attachment, recognised from the payload's
/// leading bytes.
#[derive(Clone, Copy, Debug, PartialEq, Eq, Structural)]
pub enum MediaKind {
    Png,
    Gif,
    Jpeg,
    Webp,
}

/// The variable store as a map: later writes overwrite earlier ones for the
/// same name.
pub open spec fn assoc_map(entries: Seq<(Vec<u8>, Vec<u8>)>) -> Map<Seq<u8>, Seq<u8>>
    decreases entries.len(),
{
    if entries.len() == 0 {
        Map::empty()
    } else {
        assoc_map(entries.drop_last()).insert(entries.last().0@, entries.last().1@)
    }
}

/// Entries past `k` that never mention `key` do not affect its binding.
proof fn lemma_assoc_agree(entries: Seq<(Vec<u8>, Vec<u8>)>, k: int, key: Seq<u8>)
    requires
        0 <= k <= entries.len(),
        forall|j: int| k <= j < entries.len() ==> #[trigger] entries[j].0@ != key,
    ensures
        assoc_map(entries).contains_key(key) <==> assoc_map(entries.take(k)).contains_key(key),
        assoc_map(entries).contains_key(key) ==> assoc_map(entries)[key] == assoc_map(
            entries.take(k),
        )[key],
    decreases entries.len() - k,
{
    if k == entries.len() {
        assert(entries.take(k) =~= entries);
    } else {
        assert(entries.last().0@ != key);
        lemma_assoc_agree(entries.drop_last(), k, key);
        assert(entries.drop_last().take(k) =~= entries.take(k));
    }
}

/// Mutable store threaded through every nested evaluation of one request.
pub struct SharedState {
    variables: Vec<(Vec<u8>, Vec<u8>)>,
    counter: u64,
    attachment: Option<(Vec<u8>, MediaKind)>,
}

impl SharedState {
    /// The variable bindings, later writes winning.
    pub closed spec fn vars(self) -> Map<Seq<u8>, Seq<u8>> {
        assoc_map(self.variables@)
    }

    /// How many budget units this request has consumed.
    pub closed spec fn ticks(self) -> u64 {
        self.counter
    }

    /// The attachment slot.
    pub closed spec fn attachment_view(self) -> Option<(Seq<u8>, MediaKind)> {
        match self.attachment {
            Some((data, kind)) => Some((data@, kind)),
            None => None,
        }
    }

    /// Well-formedness: the budget ceiling is never passed and every stored
    /// name and value is valid UTF-8.
    pub closed spec fn inv(self) -> bool {
        &&& self.counter <= ITER_LIMIT
        &&& forall|j: int|
            0 <= j < self.variables@.len() ==> valid_utf8(#[trigger] self.variables@[j].0@)
                && valid_utf8(self.variables@[j].1@)
    }

    /// Stored values of well-formed state are valid UTF-8.
    pub proof fn lemma_vars_valid(self, key: Seq<u8>)
        requires
            self.inv(),
            self.vars().contains_key(key),
        ensures
            valid_utf8(self.vars()[key]),
    {
        let entries = self.variables@;
        assert forall|j: int| 0 <= j < entries.len() implies valid_utf8(
            #[trigger] entries[j].0@,
        ) && valid_utf8(entries[j].1@) by {
            assert(self.variables@[j].0@ == entries[j].0@);
        }
        Self::lemma_assoc_valid(entries, key);
    }

    proof fn lemma_assoc_valid(entries: Seq<(Vec<u8>, Vec<u8>)>, key: Seq<u8>)
        requires
            forall|j: int|
                0 <= j < entries.len() ==> valid_utf8(#[trigger] entries[j].0@) && valid_utf8(
                    entries[j].1@,
                ),
            assoc_map(entries).contains_key(key),
        ensures
            valid_utf8(assoc_map(entries)[key]),
        decreases entries.len(),
    {
        if entries.len() > 0 && entries.last().0@ != key {
            let rest = entries.drop_last();
            assert forall|j: int| 0 <= j < rest.len() implies valid_utf8(
                #[trigger] rest[j].0@,
            ) && valid_utf8(rest[j].1@) by {
                assert(rest[j] == entries[j]);
            }
            Self::lemma_assoc_valid(rest, key);
        }
    }

    /// A well-formed state never holds more ticks than the ceiling.
    pub proof fn lemma_ticks_bounded(self)
        requires
            self.inv(),
        ensures
            self.ticks() <= ITER_LIMIT,
    {
    }

    /// A fresh, empty state: no variables, a zeroed counter, no attachment.
    pub fn new() -> (s: Self)
        ensures
            s.inv(),
            s.vars() == Map::<Seq<u8>, Seq<u8>>::empty(),
            s.ticks() == 0,
            s.attachment_view() is None,
    {
        SharedState { variables: Vec::new(), counter: 0, attachment: None }
    }

    /// Consumes one budget unit.  Fails — leaving the state untouched —
    /// exactly when the ceiling has been reached.
    pub fn try_tick(&mut self) -> (r: bool)
        requires
            old(self).inv(),
        ensures
            final(self).inv(),
            r <==> old(self).ticks() < ITER_LIMIT,
            r ==> final(self).ticks() == old(self).ticks() + 1,
            !r ==> final(self).ticks() == old(self).ticks(),
            final(self).vars() == old(self).vars(),
            final(self).attachment_view() == old(self).attachment_view(),
    {
        if self.counter < ITER_LIMIT {
            self.counter += 1;
            true
        } else {
            false
        }
    }

    /// How many budget units have been consumed.
    pub fn counter(&self) -> (r: u64)
        ensures
            r == self.ticks(),
    {
        self.counter
    }

    /// Binds `name` to `value`, overwriting any earlier binding.
    pub fn set_var(&mut self, name: Vec<u8>, value: Vec<u8>)
        requires
            old(self).inv(),
            valid_utf8(name@),
            valid_utf8(value@),
        ensures
            final(self).inv(),
            final(self).vars() == old(self).vars().insert(name@, value@),
            final(self).ticks() == old(self).ticks(),
            final(self).attachment_view() == old(self).attachment_view(),
    {
        let ghost before = self.variables@;
        let ghost n = name@;
        let ghost v = value@;
        self.variables.push((name, value));
        proof {
            assert(self.variables@.drop_last() =~= before);
            assert(self.variables@.last().0@ == n);
            assert(self.variables@.last().1@ == v);
        }
    }

    /// Looks a name up; yields the latest value bound to it, if any.
    pub fn get_var(&self, name: &Vec<u8>) -> (r: Option<Vec<u8>>)
        requires
            self.inv(),
        ensures
            r is Some <==> self.vars().contains_key(name@),
            r is Some ==> r->0@ == self.vars()[name@],
            r is Some ==> valid_utf8(r->0@),
    {
        let n = self.variables.len();
        let mut i: usize = n;
        while i > 0
            invariant
                n == self.variables@.len(),
                0 <= i <= n,
                self.inv(),
                forall|j: int| i <= j < n ==> #[trigger] self.variables@[j].0@ != name@,
            decreases i,
        {
            i -= 1;
            if bytes_eq(&self.variables[i].0, name) {
                let mut out: Vec<u8> = Vec::new();
                out.extend_from_slice(self.variables[i].1.as_slice());
                proof {
                    let entries = self.variables@;
                    lemma_assoc_agree(entries, i + 1, name@);
                    assert(entries.take(i + 1).drop_last() =~= entries.take(i as int));
                    assert(entries.take(i + 1).last() == entries[i as int]);
                    assert(assoc_map(entries.take(i + 1)) == assoc_map(entries.take(i as int))
                        .insert(entries[i as int].0@, entries[i as int].1@));
                    self.lemma_vars_valid(name@);
                }
                return Some(out);
            }
        }
        proof {
            lemma_assoc_agree(self.variables@, 0, name@);
            assert(self.variables@.take(0) =~= Seq::<(Vec<u8>, Vec<u8>)>::empty());
        }
        None
    }

    /// Fills the attachment slot.  A later attachment replaces an earlier
    /// one: the last side-effecting producer of a request wins.
    pub fn set_attachment(&mut self, data: Vec<u8>, kind: MediaKind)
        requires
            old(self).inv(),
        ensures
            final(self).inv(),
            final(self).attachment_view() == Some((data@, kind)),
            final(self).vars() == old(self).vars(),
            final(self).ticks() == old(self).ticks(),
    {
        let ghost before = *self;
        self.attachment = Some((data, kind));
        proof {
            assert(self.variables@ == before.variables@);
        }
    }

    /// Surrenders the attachment slot at the end of a request.
    pub fn into_attachment(self) -> (r: Option<(Vec<u8>, MediaKind)>)
        ensures
            r is Some <==> self.attachment_view() is Some,
            r is Some ==> ((r->0).0@, (r->0).1) == self.attachment_view()->0,
    {
        self.attachment
    }
}

} // verus!
