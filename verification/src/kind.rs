//! The kind of a release: a regular release with no qualifier, a breaking
//! release marked by the reserved word `break`, or a named feature release.
//! Regular sorts below the other two; `break` and feature names sort by
//! variant first, then feature names lexicographically.

use vstd::prelude::*;
use vstd::utf8::is_ascii_chars;

use crate::date::spec_cmp3;
use crate::error::ParseKindError;

verus! {

/// The kind of release, usually [`Kind::Regular`].
#[derive(Clone, Debug, Hash)]
pub enum Kind {
    /// Normal release without any extras.
    Regular,
    /// Breaking changes included.
    Breaking,
    /// Feature release, usually tied to some branch and not considered
    /// fully stable.
    Feature {
        /// Name of the feature.
        name: String,
    },
}

/// The mathematical content of a [`Kind`]: the feature name as a character
/// sequence.
#[verifier::ext_equal]
pub enum KindView {
    /// Normal release without any extras.
    Regular,
    /// Breaking changes included.
    Breaking,
    /// Feature release carrying the feature's name.
    Feature(Seq<char>),
}

impl View for Kind {
    type V = KindView;

    open spec fn view(&self) -> KindView {
        match self {
            Kind::Regular => KindView::Regular,
            Kind::Breaking => KindView::Breaking,
            Kind::Feature { name } => KindView::Feature(name@),
        }
    }
}

/// The characters of the reserved breaking-release marker.
pub open spec fn break_chars() -> Seq<char> {
    seq!['b', 'r', 'e', 'a', 'k']
}

/// A feature name is non-empty ASCII text other than the reserved marker;
/// the other kinds carry nothing.
pub open spec fn spec_kind_wf(k: KindView) -> bool {
    match k {
        KindView::Regular => true,
        KindView::Breaking => true,
        KindView::Feature(name) => name.len() > 0 && is_ascii_chars(name) && name
            != break_chars(),
    }
}

/// What parsing kind text yields: empty means regular, the reserved marker
/// means breaking, and any other ASCII text names a feature; non-ASCII text
/// is rejected.
pub open spec fn spec_kind_parse(s: Seq<char>) -> Result<KindView, ParseKindError> {
    if s.len() == 0 {
        Ok(KindView::Regular)
    } else if s == break_chars() {
        Ok(KindView::Breaking)
    } else if is_ascii_chars(s) {
        Ok(KindView::Feature(s))
    } else {
        Err(ParseKindError::NonAscii)
    }
}

/// The characters of a formatted kind: nothing, the reserved marker, or
/// the feature name verbatim.
pub open spec fn spec_kind_chars(k: KindView) -> Seq<char> {
    match k {
        KindView::Regular => Seq::empty(),
        KindView::Breaking => break_chars(),
        KindView::Feature(name) => name,
    }
}

impl Kind {
    /// The kind's content is well formed; see [`spec_kind_wf`]. Every
    /// `Kind` parsing produces satisfies this.
    pub open spec fn wf(&self) -> bool {
        spec_kind_wf(self@)
    }

    /// Tell whether this kind is [`Kind::Regular`].
    pub fn is_regular(&self) -> (r: bool)
        ensures
            r <==> self@ is Regular,
    {
        matches!(self, Kind::Regular)
    }

    /// Parses kind text, yielding exactly what [`spec_kind_parse`] says for
    /// the input.
    pub fn parse(s: &str) -> (r: Result<Kind, ParseKindError>)
        ensures
            match r {
                Ok(k) => spec_kind_parse(s@) == Ok::<KindView, ParseKindError>(k@) && k.wf(),
                Err(e) => spec_kind_parse(s@) == Err::<KindView, ParseKindError>(e),
            },
    {
        let n = s.unicode_len();
        if n == 0 {
            assert(s@ =~= Seq::<char>::empty());
            return Ok(Kind::Regular);
        }
        if is_break_text(s) {
            return Ok(Kind::Breaking);
        }
        if s.is_ascii() {
            Ok(Kind::Feature { name: s.to_owned() })
        } else {
            Err(ParseKindError::NonAscii)
        }
    }

    /// Formats the kind: the empty string, the reserved marker, or the
    /// feature name verbatim.
    pub fn format(&self) -> (r: String)
        ensures
            r@ == spec_kind_chars(self@),
    {
        match self {
            Kind::Regular => String::new(),
            Kind::Breaking => {
                let r = "break".to_owned();
                proof {
                    reveal_strlit("break");
                    assert("break"@ =~= break_chars());
                }
                r
            },
            Kind::Feature { name } => name.clone(),
        }
    }
}

/// Whatever text the kind parser reads, success yields a well-formed kind:
/// a feature name is never empty, never the reserved marker, and never
/// holds a non-ASCII character.
pub proof fn lemma_kind_parse_wf(s: Seq<char>)
    ensures
        match spec_kind_parse(s) {
            Ok(k) => spec_kind_wf(k),
            Err(_) => true,
        },
{
}

/// Whether `s` is exactly the reserved breaking-release marker.
fn is_break_text(s: &str) -> (r: bool)
    ensures
        r <==> s@ == break_chars(),
{
    let n = s.unicode_len();
    if n != 5 {
        return false;
    }
    let r = s.get_char(0) == 'b' && s.get_char(1) == 'r' && s.get_char(2) == 'e' && s.get_char(3)
        == 'a' && s.get_char(4) == 'k';
    proof {
        if r {
            assert(s@ =~= break_chars());
        }
        if s@ == break_chars() {
            assert(s@[0] == 'b' && s@[1] == 'r' && s@[2] == 'e' && s@[3] == 'a' && s@[4] == 'k');
        }
    }
    r
}

impl Default for Kind {
    /// The default kind is a regular release.
    fn default() -> (r: Self)
        ensures
            r == Kind::Regular,
    {
        Kind::Regular
    }
}

impl PartialEq for Kind {
    fn eq(&self, other: &Self) -> (r: bool) {
        match (self, other) {
            (Kind::Regular, Kind::Regular) => true,
            (Kind::Breaking, Kind::Breaking) => true,
            (Kind::Feature { name: a }, Kind::Feature { name: b }) => a.eq(b),
            _ => false,
        }
    }
}

impl Eq for Kind {

}

impl vstd::std_specs::cmp::PartialEqSpecImpl for Kind {
    open spec fn obeys_eq_spec() -> bool {
        true
    }

    open spec fn eq_spec(&self, other: &Self) -> bool {
        self@ == other@
    }
}

/// Position of a kind in the cross-variant order: regular releases sort
/// below breaking releases, which sort below feature releases.
pub open spec fn kind_tag(k: KindView) -> int {
    match k {
        KindView::Regular => 0,
        KindView::Breaking => 1,
        KindView::Feature(_) => 2,
    }
}

/// Lexicographic comparison of character sequences by code point, a prefix
/// sorting before its extensions.
pub open spec fn spec_seq_cmp(a: Seq<char>, b: Seq<char>) -> core::cmp::Ordering
    decreases a.len(),
{
    if a.len() == 0 && b.len() == 0 {
        core::cmp::Ordering::Equal
    } else if a.len() == 0 {
        core::cmp::Ordering::Less
    } else if b.len() == 0 {
        core::cmp::Ordering::Greater
    } else if (a[0] as u32) < (b[0] as u32) {
        core::cmp::Ordering::Less
    } else if (a[0] as u32) > (b[0] as u32) {
        core::cmp::Ordering::Greater
    } else {
        spec_seq_cmp(a.skip(1), b.skip(1))
    }
}

/// Kinds order by variant first, then feature names lexicographically.
pub open spec fn spec_kind_cmp(a: KindView, b: KindView) -> core::cmp::Ordering {
    if kind_tag(a) != kind_tag(b) {
        spec_cmp3(kind_tag(a), kind_tag(b))
    } else {
        match (a, b) {
            (KindView::Feature(x), KindView::Feature(y)) => spec_seq_cmp(x, y),
            _ => core::cmp::Ordering::Equal,
        }
    }
}

/// Comparing from position `i` on is comparing the whole when the first
/// `i` characters agree.
proof fn lemma_seq_cmp_skip(a: Seq<char>, b: Seq<char>, i: int)
    requires
        0 <= i <= a.len(),
        i <= b.len(),
        forall|j: int| 0 <= j < i ==> a[j] == b[j],
    ensures
        spec_seq_cmp(a, b) == spec_seq_cmp(a.skip(i), b.skip(i)),
    decreases i,
{
    if i == 0 {
        assert(a.skip(0) =~= a);
        assert(b.skip(0) =~= b);
    } else {
        lemma_seq_cmp_skip(a, b, i - 1);
        let sa = a.skip(i - 1);
        let sb = b.skip(i - 1);
        assert(sa[0] == a[i - 1] && sb[0] == b[i - 1]);
        assert(sa.skip(1) =~= a.skip(i));
        assert(sb.skip(1) =~= b.skip(i));
    }
}

/// Compares two strings character by character.
fn str_cmp(a: &str, b: &str) -> (r: core::cmp::Ordering)
    ensures
        r == spec_seq_cmp(a@, b@),
{
    let la = a.unicode_len();
    let lb = b.unicode_len();
    let mut i: usize = 0;
    while i < la && i < lb
        invariant
            i <= la == a@.len(),
            i <= lb == b@.len(),
            forall|j: int| 0 <= j < i ==> a@[j] == b@[j],
        decreases la - i,
    {
        let ca = a.get_char(i) as u32;
        let cb = b.get_char(i) as u32;
        if ca < cb {
            proof {
                lemma_seq_cmp_skip(a@, b@, i as int);
            }
            return core::cmp::Ordering::Less;
        }
        if ca > cb {
            proof {
                lemma_seq_cmp_skip(a@, b@, i as int);
            }
            return core::cmp::Ordering::Greater;
        }
        proof {
            assert(a@[i as int] == b@[i as int]);
        }
        i = i + 1;
    }
    proof {
        lemma_seq_cmp_skip(a@, b@, i as int);
    }
    if la == lb {
        core::cmp::Ordering::Equal
    } else if la < lb {
        core::cmp::Ordering::Less
    } else {
        core::cmp::Ordering::Greater
    }
}

impl Kind {
    /// Three-way comparison: by variant first, then feature names
    /// lexicographically.
    pub fn cmp(&self, other: &Self) -> (r: core::cmp::Ordering)
        ensures
            r == spec_kind_cmp(self@, other@),
    {
        match (self, other) {
            (Kind::Regular, Kind::Regular) => core::cmp::Ordering::Equal,
            (Kind::Regular, _) => core::cmp::Ordering::Less,
            (Kind::Breaking, Kind::Regular) => core::cmp::Ordering::Greater,
            (Kind::Breaking, Kind::Breaking) => core::cmp::Ordering::Equal,
            (Kind::Breaking, Kind::Feature { .. }) => core::cmp::Ordering::Less,
            (Kind::Feature { .. }, Kind::Regular) => core::cmp::Ordering::Greater,
            (Kind::Feature { .. }, Kind::Breaking) => core::cmp::Ordering::Greater,
            (Kind::Feature { name: a }, Kind::Feature { name: b }) => str_cmp(
                a.as_str(),
                b.as_str(),
            ),
        }
    }
}

impl PartialOrd for Kind {
    fn partial_cmp(&self, other: &Self) -> (r: Option<core::cmp::Ordering>) {
        Some(self.cmp(other))
    }
}

impl vstd::std_specs::cmp::PartialOrdSpecImpl for Kind {
    open spec fn obeys_partial_cmp_spec() -> bool {
        true
    }

    open spec fn partial_cmp_spec(&self, other: &Self) -> Option<core::cmp::Ordering> {
        Some(spec_kind_cmp(self@, other@))
    }
}

} // verus!
