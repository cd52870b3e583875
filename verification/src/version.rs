//! The chronologic version: a calendar date, an optional changeset counter
//! and a release kind, written `YYYY.MM.DD[.CHANGESET][-KIND]`. Parsing,
//! formatting (its exact inverse), the total order, and advancing to the
//! next release.

use vstd::prelude::*;
use vstd::utf8::is_ascii_chars;

use crate::changeset::{
    lemma_changeset_eq_view, lemma_changeset_view_bound, spec_changeset_parse, Changeset,
};
use crate::date::{
    lemma_date_eq_view, spec_cmp3, spec_date_chars, spec_date_cmp, spec_date_parse, today,
    valid_date, Date, DateView,
};
use crate::digits::{dec_chars, is_digit};
use crate::error::ParseError;
use crate::kind::{spec_kind_chars, spec_kind_cmp, spec_kind_parse, spec_kind_wf, Kind, KindView};

verus! {

/// Represents a version number conforming to the chronologic versioning
/// scheme.
#[derive(Clone, Debug, Hash)]
pub struct Version {
    /// The date of release, to be updated whenever a new release is made on
    /// a different date than the last release.
    pub date: Date,
    /// The changeset number, to be incremented when a change was released
    /// on the same day.
    pub changeset: Option<Changeset>,
    /// The kind, which describes the kind of release and carries further
    /// semantics.
    pub kind: Kind,
}

/// The mathematical content of a [`Version`].
#[verifier::ext_equal]
pub struct VersionView {
    /// The date's components.
    pub date: DateView,
    /// The changeset counter, when present.
    pub changeset: Option<int>,
    /// The kind's content.
    pub kind: KindView,
}

impl View for Version {
    type V = VersionView;

    open spec fn view(&self) -> VersionView {
        VersionView {
            date: self.date@,
            changeset: match self.changeset {
                Some(c) => Some(c@),
                None => None,
            },
            kind: self.kind@,
        }
    }
}

/// The invariants every version this library hands out satisfies: a real
/// calendar date, a strictly positive changeset counter that fits the
/// counter type, and a well-formed kind.
pub open spec fn spec_version_wf(v: VersionView) -> bool {
    &&& valid_date(v.date.year, v.date.month, v.date.day)
    &&& match v.changeset {
        Some(n) => 1 <= n <= u32::MAX,
        None => true,
    }
    &&& spec_kind_wf(v.kind)
}

/// Minimum length that a version must have to be further processed: the
/// date portion alone is exactly ten characters.
pub const DATE_LENGTH: usize = 10;

/// End of the run of digits in `s` that starts at `from`: the first
/// position at or after `from` holding a non-digit, or the length of `s`.
pub open spec fn spec_digit_run_end(s: Seq<char>, from: int) -> int
    decreases s.len() - from,
{
    if !(0 <= from < s.len()) {
        s.len() as int
    } else if !is_digit(s[from]) {
        from
    } else {
        spec_digit_run_end(s, from + 1)
    }
}

/// What parsing version text yields. Parsing proceeds strictly left to
/// right: non-ASCII text and text shorter than the date portion fail up
/// front; the first ten characters form the date, whose failure reports
/// before anything after them is consumed; a `.` after them starts the
/// changeset's digit run; a `-` after that starts the kind; anything else
/// left over is trailing data.
pub open spec fn spec_version_parse(s: Seq<char>) -> Result<VersionView, ParseError> {
    if !is_ascii_chars(s) {
        Err(ParseError::NonAscii)
    } else if s.len() < DATE_LENGTH {
        Err(ParseError::TooShort)
    } else {
        match spec_date_parse(s.subrange(0, DATE_LENGTH as int)) {
            Err(e) => Err(ParseError::InvalidDate(e)),
            Ok(d) => {
                let rem = s.skip(DATE_LENGTH as int);
                if rem.len() > 0 && rem[0] == '.' {
                    let k = spec_digit_run_end(rem, 1);
                    match spec_changeset_parse(rem.subrange(1, k)) {
                        Err(e) => Err(ParseError::InvalidChangeset(e)),
                        Ok(c) => spec_version_tail(d, Some(c), rem.skip(k)),
                    }
                } else {
                    spec_version_tail(d, None, rem)
                }
            },
        }
    }
}

/// Parsing after the date and changeset have been consumed: a leading `-`
/// hands the rest to the kind parser, nothing left means a regular
/// release, anything else is trailing data.
pub open spec fn spec_version_tail(date: DateView, changeset: Option<int>, rem: Seq<char>) -> Result<
    VersionView,
    ParseError,
> {
    if rem.len() > 0 && rem[0] == '-' {
        match spec_kind_parse(rem.skip(1)) {
            Err(e) => Err(ParseError::InvalidKind(e)),
            Ok(k) => Ok(VersionView { date, changeset, kind: k }),
        }
    } else if rem.len() == 0 {
        Ok(VersionView { date, changeset, kind: KindView::Regular })
    } else {
        Err(ParseError::TrailingData)
    }
}

/// The characters of a formatted version: the date, then `.` and the
/// counter when a changeset is present, then `-` and the kind when it is
/// not regular.
pub open spec fn spec_version_chars(v: VersionView) -> Seq<char> {
    spec_date_chars(v.date) + (match v.changeset {
        Some(n) => seq!['.'] + dec_chars(n),
        None => Seq::<char>::empty(),
    }) + (if v.kind is Regular {
        Seq::<char>::empty()
    } else {
        seq!['-'] + spec_kind_chars(v.kind)
    })
}

/// The counter a same-day increment produces: one when the changeset was
/// absent, else the old counter plus one, saturating at the largest
/// representable counter.
pub open spec fn spec_next_changeset(c: Option<int>) -> int {
    match c {
        None => 1,
        Some(n) => if n + 1 <= u32::MAX {
            n + 1
        } else {
            u32::MAX as int
        },
    }
}

/// What incrementing yields once today's date is known: today's date, a
/// counter only when the date did not move, and a regular kind.
pub open spec fn spec_increment(v: VersionView, today: DateView) -> VersionView {
    VersionView {
        date: today,
        changeset: if v.date == today {
            Some(spec_next_changeset(v.changeset))
        } else {
            None
        },
        kind: KindView::Regular,
    }
}

impl Version {
    /// The version's content is well formed; see [`spec_version_wf`].
    pub open spec fn wf(&self) -> bool {
        spec_version_wf(self@)
    }

    /// Parses version text, yielding exactly what [`spec_version_parse`]
    /// says for the input: a well-formed version, or the error the text
    /// earns.
    pub fn parse(s: &str) -> (r: Result<Version, ParseError>)
        ensures
            match r {
                Ok(v) => spec_version_parse(s@) == Ok::<VersionView, ParseError>(v@) && v.wf(),
                Err(e) => spec_version_parse(s@) == Err::<VersionView, ParseError>(e),
            },
    {
        if !s.is_ascii() {
            return Err(ParseError::NonAscii);
        }
        let n = s.unicode_len();
        if n < DATE_LENGTH {
            return Err(ParseError::TooShort);
        }
        let date_str = s.substring_ascii(0, DATE_LENGTH);
        proof {
            assert(date_str@ =~= s@.subrange(0, DATE_LENGTH as int));
        }
        let date = match Date::parse(date_str) {
            Ok(d) => d,
            Err(e) => {
                return Err(ParseError::InvalidDate(e));
            },
        };
        let ghost rem = s@.skip(DATE_LENGTH as int);
        proof {
            assert(forall|j: int| 0 <= j < rem.len() ==> rem[j] == s@[DATE_LENGTH + j]);
        }
        let mut rest: usize = DATE_LENGTH;
        let changeset = if DATE_LENGTH < n && s.get_char(DATE_LENGTH) == '.' {
            let k = digit_run_end(s, DATE_LENGTH + 1, n);
            proof {
                lemma_digit_run_end_unique(rem, 1, k - DATE_LENGTH);
                assert(s@.subrange(DATE_LENGTH + 1, k as int) =~= rem.subrange(
                    1,
                    k - DATE_LENGTH,
                ));
            }
            let cs_str = s.substring_ascii(DATE_LENGTH + 1, k);
            match Changeset::parse(cs_str) {
                Ok(c) => {
                    rest = k;
                    Some(c)
                },
                Err(e) => {
                    return Err(ParseError::InvalidChangeset(e));
                },
            }
        } else {
            None
        };
        let ghost rem2 = rem.skip(rest - DATE_LENGTH);
        proof {
            if rest == DATE_LENGTH {
                assert(rem2 =~= rem);
            }
            assert(forall|j: int| 0 <= j < rem2.len() ==> rem2[j] == s@[rest + j]);
        }
        let kind = if rest < n && s.get_char(rest) == '-' {
            proof {
                assert(s@.subrange(rest + 1, n as int) =~= rem2.skip(1));
            }
            let kind_str = s.substring_ascii(rest + 1, n);
            match Kind::parse(kind_str) {
                Ok(k) => k,
                Err(e) => {
                    return Err(ParseError::InvalidKind(e));
                },
            }
        } else if rest == n {
            proof {
                assert(rem2.len() == 0);
            }
            Kind::Regular
        } else {
            return Err(ParseError::TrailingData);
        };
        Ok(Version { date, changeset, kind })
    }

    /// Formats the version: the date, then `.` and the counter when a
    /// changeset is present, then `-` and the kind when it is not regular.
    /// The exact left inverse of parsing for every parseable version.
    pub fn format(&self) -> (r: String)
        requires
            self.date.wf(),
        ensures
            r@ == spec_version_chars(self@),
    {
        let mut out = self.date.format();
        match &self.changeset {
            Some(c) => {
                out.append(".");
                let cs = c.format();
                out.append(cs.as_str());
            },
            None => {},
        }
        if !self.kind.is_regular() {
            out.append("-");
            let ks = self.kind.format();
            out.append(ks.as_str());
        }
        proof {
            reveal_strlit(".");
            reveal_strlit("-");
            assert(out@ =~= spec_version_chars(self@));
        }
        out
    }

    /// Increment the version to the given day, or increment the changeset
    /// in case the date is the same. The kind is reset to
    /// [`Kind::Regular`]. This is the deterministic core of
    /// [`Version::increment`]: the current date is an argument, so a caller
    /// can supply a fixed day.
    pub fn increment_at(&self, today: Date) -> (r: Version)
        requires
            today.wf(),
        ensures
            r.wf(),
            r@.date == today@,
            r@ == spec_increment(self@, today@),
    {
        proof {
            lemma_date_eq_view(self.date, today);
            if let Some(c) = self.changeset {
                lemma_changeset_view_bound(c);
            }
        }
        let changeset = if self.date == today {
            match self.changeset {
                None => Changeset::new(1),
                Some(cs) => Some(cs.checked_add(1)),
            }
        } else {
            None
        };
        Version { date: today, changeset, kind: Kind::Regular }
    }

    /// Increment the version to the current date, or increment the
    /// changeset in case the date is the same. The kind is reset to
    /// [`Kind::Regular`].
    pub fn increment(&self) -> (r: Version)
        ensures
            r.wf(),
            r@ == spec_increment(self@, r@.date),
    {
        self.increment_at(today())
    }

    /// Check whether the current version introduces breaking changes.
    pub fn is_breaking(&self) -> (r: bool)
        ensures
            r <==> self@.kind is Breaking,
    {
        matches!(self.kind, Kind::Breaking)
    }

    /// Three-way comparison: by date first, then by changeset rank, then
    /// by kind.
    pub fn cmp(&self, other: &Self) -> (r: core::cmp::Ordering)
        ensures
            r == spec_version_cmp(self@, other@),
    {
        let dc = self.date.cmp(&other.date);
        if !matches!(dc, core::cmp::Ordering::Equal) {
            proof {
                assert(self@.date != other@.date);
            }
            return dc;
        }
        proof {
            assert(self@.date == other@.date);
        }
        let ra = match &self.changeset {
            None => 0u32,
            Some(c) => c.get(),
        };
        let rb = match &other.changeset {
            None => 0u32,
            Some(c) => c.get(),
        };
        if ra < rb {
            core::cmp::Ordering::Less
        } else if ra > rb {
            core::cmp::Ordering::Greater
        } else {
            self.kind.cmp(&other.kind)
        }
    }
}

/// Rank of a changeset for ordering purposes: an absent changeset ranks
/// zero, below every present one.
pub open spec fn spec_changeset_rank(c: Option<int>) -> int {
    match c {
        None => 0,
        Some(n) => n,
    }
}

/// Versions order lexicographically over date, changeset rank and kind.
pub open spec fn spec_version_cmp(a: VersionView, b: VersionView) -> core::cmp::Ordering {
    if a.date != b.date {
        spec_date_cmp(a.date, b.date)
    } else if spec_changeset_rank(a.changeset) != spec_changeset_rank(b.changeset) {
        spec_cmp3(spec_changeset_rank(a.changeset), spec_changeset_rank(b.changeset))
    } else {
        spec_kind_cmp(a.kind, b.kind)
    }
}

/// `spec_digit_run_end` returns the position where the digits that started
/// at `from` stop.
pub proof fn lemma_digit_run_end_unique(s: Seq<char>, from: int, e: int)
    requires
        0 <= from <= e <= s.len(),
        forall|j: int| from <= j < e ==> is_digit(#[trigger] s[j]),
        e == s.len() || !is_digit(s[e]),
    ensures
        spec_digit_run_end(s, from) == e,
    decreases e - from,
{
    if from < e {
        lemma_digit_run_end_unique(s, from + 1, e);
    }
}

/// Scans `s[from..to]` and returns the position where its leading digits
/// stop.
fn digit_run_end(s: &str, from: usize, to: usize) -> (r: usize)
    requires
        from <= to <= s@.len(),
    ensures
        from <= r <= to,
        forall|j: int| from <= j < r ==> is_digit(#[trigger] s@[j]),
        r < to ==> !is_digit(s@[r as int]),
        r == to || !is_digit(s@[r as int]),
{
    let mut k: usize = from;
    while k < to
        invariant
            from <= k <= to <= s@.len(),
            forall|j: int| from <= j < k ==> is_digit(#[trigger] s@[j]),
        decreases to - k,
    {
        let c = s.get_char(k);
        let u = c as u32;
        if !(48 <= u && u <= 57) {
            return k;
        }
        k = k + 1;
    }
    k
}

impl Default for Version {
    /// The default version: today's date, no changeset, a regular release.
    fn default() -> (r: Self)
        ensures
            r.wf(),
            r@.changeset is None,
            r@.kind is Regular,
            valid_date(r@.date.year, r@.date.month, r@.date.day),
    {
        Version { date: today(), changeset: None, kind: Kind::Regular }
    }
}

impl PartialEq for Version {
    fn eq(&self, other: &Self) -> (r: bool) {
        proof {
            lemma_date_eq_view(self.date, other.date);
            if let (Some(a), Some(b)) = (self.changeset, other.changeset) {
                lemma_changeset_eq_view(a, b);
            }
        }
        let dates = self.date == other.date;
        let changesets = match (&self.changeset, &other.changeset) {
            (None, None) => true,
            (Some(a), Some(b)) => a.get() == b.get(),
            _ => false,
        };
        dates && changesets && self.kind.eq(&other.kind)
    }
}

impl Eq for Version {

}

impl vstd::std_specs::cmp::PartialEqSpecImpl for Version {
    open spec fn obeys_eq_spec() -> bool {
        true
    }

    open spec fn eq_spec(&self, other: &Self) -> bool {
        self@ == other@
    }
}

impl PartialOrd for Version {
    fn partial_cmp(&self, other: &Self) -> (r: Option<core::cmp::Ordering>) {
        Some(self.cmp(other))
    }
}

impl vstd::std_specs::cmp::PartialOrdSpecImpl for Version {
    open spec fn obeys_partial_cmp_spec() -> bool {
        true
    }

    open spec fn partial_cmp_spec(&self, other: &Self) -> Option<core::cmp::Ordering> {
        Some(spec_version_cmp(self@, other@))
    }
}

} // verus!
