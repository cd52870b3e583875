//! The changeset: a strictly positive counter that disambiguates multiple
//! releases on the same day. Zero is expressed by leaving the changeset
//! out, never by a present zero value.

use vstd::prelude::*;

use crate::date::spec_cmp3;
use crate::digits::{dec_chars, push_dec, spec_parse_dec};
use crate::error::ParseChangesetError;

verus! {

/// The changeset which is an incremental value in cases where multiple
/// releases were done on the same day. Always strictly positive; see
/// [`Changeset::wf`].
#[derive(Clone, Copy, Debug, PartialEq, Eq, Structural, Hash)]
pub struct Changeset {
    /// The counter, never zero.
    value: u32,
}

impl View for Changeset {
    type V = int;

    closed spec fn view(&self) -> int {
        self.value as int
    }
}

/// What parsing changeset text yields: a digit run read as a `u32`, with a
/// value of zero rejected rather than normalized to absence.
pub open spec fn spec_changeset_parse(s: Seq<char>) -> Result<int, ParseChangesetError> {
    match spec_parse_dec(s, u32::MAX as int) {
        Err(e) => Err(ParseChangesetError::InvalidInt(e)),
        Ok(v) => if v == 0 {
            Err(ParseChangesetError::Zero)
        } else {
            Ok(v)
        },
    }
}

impl Changeset {
    /// The counter is strictly positive. Every `Changeset` this library
    /// hands out satisfies this.
    pub open spec fn wf(&self) -> bool {
        self@ >= 1
    }

    /// Wraps a raw counter value. Changesets must be positive numbers or
    /// are omitted, so the literal `0` yields `None`.
    pub fn new(value: u32) -> (r: Option<Changeset>)
        ensures
            r is Some <==> value > 0,
            match r {
                Some(c) => c@ == value && c.wf(),
                None => true,
            },
    {
        if value == 0 {
            None
        } else {
            Some(Changeset { value })
        }
    }

    /// Get the raw changeset value.
    pub fn get(&self) -> (r: u32)
        ensures
            r == self@,
    {
        self.value
    }

    /// Adds `value` to the counter, saturating at the largest representable
    /// counter instead of wrapping around.
    pub fn checked_add(self, value: u32) -> (r: Changeset)
        ensures
            r@ == if self@ + value <= u32::MAX {
                self@ + value
            } else {
                u32::MAX as int
            },
            self.wf() ==> r.wf(),
    {
        if value <= u32::MAX - self.value {
            Changeset { value: self.value + value }
        } else {
            Changeset { value: u32::MAX }
        }
    }

    /// Parses changeset text, yielding exactly what [`spec_changeset_parse`]
    /// says for the input.
    pub fn parse(s: &str) -> (r: Result<Changeset, ParseChangesetError>)
        ensures
            match r {
                Ok(c) => spec_changeset_parse(s@) == Ok::<int, ParseChangesetError>(c@) && c.wf(),
                Err(e) => spec_changeset_parse(s@) == Err::<int, ParseChangesetError>(e),
            },
    {
        let n = s.unicode_len();
        let value = match crate::digits::parse_dec(s, 0, n, u32::MAX as u64) {
            Ok(v) => v as u32,
            Err(e) => {
                proof {
                    assert(s@.subrange(0, n as int) =~= s@);
                }
                return Err(ParseChangesetError::InvalidInt(e));
            },
        };
        proof {
            assert(s@.subrange(0, n as int) =~= s@);
        }
        if value == 0 {
            Err(ParseChangesetError::Zero)
        } else {
            Ok(Changeset { value })
        }
    }

    /// Formats the counter as plain decimal digits, no padding.
    pub fn format(&self) -> (r: String)
        ensures
            r@ == dec_chars(self@),
    {
        let mut out = String::new();
        push_dec(&mut out, self.value);
        proof {
            assert(Seq::<char>::empty() + dec_chars(self@) =~= dec_chars(self@));
        }
        out
    }
}

/// Whatever text the changeset parser reads, success yields a counter that
/// is strictly positive and fits the counter type.
pub proof fn lemma_changeset_parse_positive(s: Seq<char>)
    ensures
        match spec_changeset_parse(s) {
            Ok(c) => 1 <= c <= u32::MAX,
            Err(_) => true,
        },
{
    if s.len() > 0 && crate::digits::all_digits(s) {
        crate::digits::lemma_digits_val_nonneg(s);
    }
}

/// Two changesets are equal exactly when their views are: the view exposes
/// the counter and nothing else.
pub proof fn lemma_changeset_eq_view(a: Changeset, b: Changeset)
    ensures
        (a == b) <==> (a@ == b@),
{
}

/// The counter fits its representation type.
pub proof fn lemma_changeset_view_bound(c: Changeset)
    ensures
        0 <= c@ <= u32::MAX,
{
}

impl PartialOrd for Changeset {
    fn partial_cmp(&self, other: &Self) -> (r: Option<core::cmp::Ordering>) {
        if self.value < other.value {
            Some(core::cmp::Ordering::Less)
        } else if self.value > other.value {
            Some(core::cmp::Ordering::Greater)
        } else {
            Some(core::cmp::Ordering::Equal)
        }
    }
}

impl vstd::std_specs::cmp::PartialOrdSpecImpl for Changeset {
    open spec fn obeys_partial_cmp_spec() -> bool {
        true
    }

    open spec fn partial_cmp_spec(&self, other: &Self) -> Option<core::cmp::Ordering> {
        Some(spec_cmp3(self@, other@))
    }
}

} // verus!
