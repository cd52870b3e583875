//! The laws the library promises: the comparator is a total order
//! consistent with equality, parsing only ever yields well-formed versions,
//! and formatting is the exact left inverse of parsing.

use vstd::prelude::*;
use vstd::utf8::is_ascii_chars;

use crate::changeset::{lemma_changeset_parse_positive, spec_changeset_parse};
use crate::date::{
    lemma_date_chars_len, lemma_date_parse_valid, lemma_find_char_unique, spec_date_chars,
    spec_date_parse, valid_date, year_chars, DateView,
};
use crate::digits::{
    all_digits, dec_chars, is_digit, lemma_dec_chars_val, lemma_padded_val, padded_dec_chars,
    spec_parse_dec,
};
use crate::error::{ParseDateError, ParseError};
use crate::kind::{
    break_chars, kind_tag, lemma_kind_parse_wf, spec_kind_chars, spec_kind_cmp, spec_kind_parse,
    spec_seq_cmp, KindView,
};
use crate::version::{
    lemma_digit_run_end_unique, spec_changeset_rank, spec_digit_run_end, spec_version_chars,
    spec_version_cmp, spec_version_parse, spec_version_wf, VersionView, DATE_LENGTH,
};

verus! {

/// The opposite of an ordering.
pub open spec fn spec_ord_reverse(o: core::cmp::Ordering) -> core::cmp::Ordering {
    match o {
        core::cmp::Ordering::Less => core::cmp::Ordering::Greater,
        core::cmp::Ordering::Equal => core::cmp::Ordering::Equal,
        core::cmp::Ordering::Greater => core::cmp::Ordering::Less,
    }
}

/// Characters agree exactly when their code points do.
proof fn lemma_char_cmp(c1: char, c2: char)
    ensures
        c1 as u32 == c2 as u32 <==> c1 == c2,
{
}

/// Lexicographic comparison finds two sequences equal exactly when they are
/// the same sequence.
proof fn lemma_seq_cmp_eq(x: Seq<char>, y: Seq<char>)
    ensures
        spec_seq_cmp(x, y) == core::cmp::Ordering::Equal <==> x == y,
    decreases x.len(),
{
    if x.len() == 0 && y.len() == 0 {
        assert(x =~= y);
    } else if x.len() > 0 && y.len() > 0 {
        lemma_char_cmp(x[0], y[0]);
        if x[0] == y[0] {
            lemma_seq_cmp_eq(x.skip(1), y.skip(1));
            assert(spec_seq_cmp(x, y) == spec_seq_cmp(x.skip(1), y.skip(1)));
            if x.skip(1) == y.skip(1) {
                assert forall|i: int| 0 <= i < x.len() implies x[i] == y[i] by {
                    if i > 0 {
                        assert(x[i] == x.skip(1)[i - 1]);
                        assert(y[i] == y.skip(1)[i - 1]);
                    }
                }
                assert(x =~= y);
            }
            if x == y {
                assert(x.skip(1) =~= y.skip(1));
            }
        }
    }
}

/// Swapping the operands of a lexicographic comparison reverses its result.
proof fn lemma_seq_cmp_reverse(x: Seq<char>, y: Seq<char>)
    ensures
        spec_seq_cmp(y, x) == spec_ord_reverse(spec_seq_cmp(x, y)),
    decreases x.len(),
{
    if x.len() > 0 && y.len() > 0 {
        lemma_char_cmp(x[0], y[0]);
        if x[0] == y[0] {
            lemma_seq_cmp_reverse(x.skip(1), y.skip(1));
            assert(spec_seq_cmp(x, y) == spec_seq_cmp(x.skip(1), y.skip(1)));
            assert(spec_seq_cmp(y, x) == spec_seq_cmp(y.skip(1), x.skip(1)));
        }
    }
}

/// Lexicographic comparison is transitive.
proof fn lemma_seq_cmp_trans(x: Seq<char>, y: Seq<char>, z: Seq<char>)
    requires
        spec_seq_cmp(x, y) == core::cmp::Ordering::Less,
        spec_seq_cmp(y, z) == core::cmp::Ordering::Less,
    ensures
        spec_seq_cmp(x, z) == core::cmp::Ordering::Less,
    decreases x.len(),
{
    if x.len() > 0 {
        lemma_char_cmp(x[0], y[0]);
        lemma_char_cmp(y[0], z[0]);
        lemma_char_cmp(x[0], z[0]);
        if x[0] as u32 == y[0] as u32 && y[0] as u32 == z[0] as u32 {
            assert(spec_seq_cmp(x, y) == spec_seq_cmp(x.skip(1), y.skip(1)));
            assert(spec_seq_cmp(y, z) == spec_seq_cmp(y.skip(1), z.skip(1)));
            lemma_seq_cmp_trans(x.skip(1), y.skip(1), z.skip(1));
            assert(spec_seq_cmp(x, z) == spec_seq_cmp(x.skip(1), z.skip(1)));
        }
    }
}

/// Kinds compare equal exactly when they are the same kind.
proof fn lemma_kind_cmp_eq(x: KindView, y: KindView)
    ensures
        spec_kind_cmp(x, y) == core::cmp::Ordering::Equal <==> x == y,
{
    if kind_tag(x) == kind_tag(y) {
        if let (KindView::Feature(a), KindView::Feature(b)) = (x, y) {
            lemma_seq_cmp_eq(a, b);
        }
    }
}

/// Swapping the operands of a kind comparison reverses its result.
proof fn lemma_kind_cmp_reverse(x: KindView, y: KindView)
    ensures
        spec_kind_cmp(y, x) == spec_ord_reverse(spec_kind_cmp(x, y)),
{
    if let (KindView::Feature(a), KindView::Feature(b)) = (x, y) {
        lemma_seq_cmp_reverse(a, b);
    }
}

/// Kind comparison is transitive.
proof fn lemma_kind_cmp_trans(x: KindView, y: KindView, z: KindView)
    requires
        spec_kind_cmp(x, y) == core::cmp::Ordering::Less,
        spec_kind_cmp(y, z) == core::cmp::Ordering::Less,
    ensures
        spec_kind_cmp(x, z) == core::cmp::Ordering::Less,
{
    if let (KindView::Feature(a), KindView::Feature(b), KindView::Feature(c)) = (x, y, z) {
        if kind_tag(x) == kind_tag(y) && kind_tag(y) == kind_tag(z) {
            lemma_seq_cmp_trans(a, b, c);
        }
    }
}

/// Total order law: comparison of well-formed versions is total, finds two
/// versions equal exactly when they are structurally equal, and reverses
/// when its operands swap. So for any two well-formed versions exactly one
/// of "`a` before `b`", "`a` equal to `b`" and "`a` after `b`" holds.
pub proof fn lemma_version_order_trichotomy(a: VersionView, b: VersionView)
    requires
        spec_version_wf(a),
        spec_version_wf(b),
    ensures
        spec_version_cmp(a, b) == core::cmp::Ordering::Equal <==> a == b,
        spec_version_cmp(b, a) == spec_ord_reverse(spec_version_cmp(a, b)),
{
    lemma_kind_cmp_eq(a.kind, b.kind);
    lemma_kind_cmp_reverse(a.kind, b.kind);
    if spec_version_cmp(a, b) == core::cmp::Ordering::Equal {
        assert(spec_changeset_rank(a.changeset) == spec_changeset_rank(b.changeset));
        assert(a.changeset == b.changeset) by {
            match (a.changeset, b.changeset) {
                (Some(x), Some(y)) => {},
                (None, Some(y)) => {
                    assert(y >= 1);
                },
                (Some(x), None) => {
                    assert(x >= 1);
                },
                (None, None) => {},
            }
        }
        assert(a =~= b);
    }
}

/// Code points below 128 are within the character bound ASCII is stated
/// with.
proof fn lemma_ascii_char(c: char)
    requires
        (c as u32) < 128,
    ensures
        '\0' <= c <= '\u{7f}',
{
}

/// A run of digit characters is ASCII text.
proof fn lemma_digits_ascii(cs: Seq<char>)
    requires
        all_digits(cs),
    ensures
        is_ascii_chars(cs),
{
    assert forall|i: int| 0 <= i < cs.len() implies '\0' <= #[trigger] cs[i] <= '\u{7f}' by {
        assert(is_digit(cs[i]));
        lemma_ascii_char(cs[i]);
    }
}

/// Round trip at the date level: formatting a valid date with a
/// non-negative year and parsing the result yields the date back.
pub proof fn lemma_date_roundtrip(d: DateView)
    requires
        valid_date(d.year, d.month, d.day),
        d.year >= 0,
    ensures
        spec_date_parse(spec_date_chars(d)) == Ok::<DateView, ParseDateError>(d),
{
    let y = padded_dec_chars(d.year, 4);
    let m = padded_dec_chars(d.month, 2);
    let dd = padded_dec_chars(d.day, 2);
    let s = spec_date_chars(d);
    lemma_padded_val(d.year, 4);
    lemma_padded_val(d.month, 2);
    lemma_padded_val(d.day, 2);
    lemma_date_chars_len(d);
    assert(year_chars(d.year) == y);
    assert(s =~= y + seq!['.'] + m + seq!['.'] + dd);
    assert(s[4] == '.');
    assert forall|j: int| 0 <= j < 4 implies s[j] != '.' by {
        assert(s[j] == y[j]);
        assert(is_digit(y[j]));
    }
    lemma_find_char_unique(s, '.', 4);
    let rest = s.skip(5);
    assert(rest =~= m + seq!['.'] + dd);
    assert(rest[2] == '.');
    assert forall|j: int| 0 <= j < 2 implies rest[j] != '.' by {
        assert(rest[j] == m[j]);
        assert(is_digit(m[j]));
    }
    lemma_find_char_unique(rest, '.', 2);
    assert(s.subrange(0, 4) =~= y);
    assert(rest.subrange(0, 2) =~= m);
    assert(rest.skip(3) =~= dd);
    assert(spec_parse_dec(y, i32::MAX as int) == Ok::<int, crate::error::InvalidIntError>(d.year));
    assert(spec_parse_dec(m, u8::MAX as int) == Ok::<int, crate::error::InvalidIntError>(d.month));
    assert(spec_parse_dec(dd, u8::MAX as int) == Ok::<int, crate::error::InvalidIntError>(d.day));
    assert(spec_date_parse(s) == Ok::<DateView, ParseDateError>(
        DateView { year: d.year, month: d.month, day: d.day },
    ));
}

/// Round-trip law: formatting any version the parser could produce — a
/// well-formed version with a non-negative year — and parsing the result
/// yields the version back.
pub proof fn lemma_format_parse_roundtrip(v: VersionView)
    requires
        spec_version_wf(v),
        v.date.year >= 0,
    ensures
        spec_version_parse(spec_version_chars(v)) == Ok::<VersionView, ParseError>(v),
{
    let dpart = spec_date_chars(v.date);
    let cpart: Seq<char> = match v.changeset {
        Some(n) => seq!['.'] + dec_chars(n),
        None => Seq::<char>::empty(),
    };
    let kpart: Seq<char> = if v.kind is Regular {
        Seq::<char>::empty()
    } else {
        seq!['-'] + spec_kind_chars(v.kind)
    };
    let s = spec_version_chars(v);
    assert(s == dpart + cpart + kpart);
    lemma_date_chars_len(v.date);
    lemma_padded_val(v.date.year, 4);
    lemma_padded_val(v.date.month, 2);
    lemma_padded_val(v.date.day, 2);
    let y = padded_dec_chars(v.date.year, 4);
    let m = padded_dec_chars(v.date.month, 2);
    let dd = padded_dec_chars(v.date.day, 2);
    assert(year_chars(v.date.year) == y);
    assert(dpart =~= y + seq!['.'] + m + seq!['.'] + dd);
    if let Some(n) = v.changeset {
        lemma_dec_chars_val(n);
        lemma_digits_ascii(dec_chars(n));
    }
    lemma_digits_ascii(y);
    lemma_digits_ascii(m);
    lemma_digits_ascii(dd);
    assert(is_ascii_chars(s)) by {
        assert forall|i: int| 0 <= i < s.len() implies '\0' <= #[trigger] s[i] <= '\u{7f}' by {
            if i < dpart.len() {
                assert(s[i] == dpart[i]);
                if i < 4 {
                    assert(dpart[i] == y[i]);
                } else if i == 4 {
                    assert(dpart[i] == '.');
                } else if i < 7 {
                    assert(dpart[i] == m[i - 5]);
                } else if i == 7 {
                    assert(dpart[i] == '.');
                } else {
                    assert(dpart[i] == dd[i - 8]);
                }
            } else if i < dpart.len() + cpart.len() {
                assert(s[i] == cpart[i - dpart.len()]);
                if let Some(n) = v.changeset {
                    if i > dpart.len() {
                        assert(cpart[i - dpart.len()] == dec_chars(n)[i - dpart.len() - 1]);
                    }
                }
            } else {
                assert(s[i] == kpart[i - dpart.len() - cpart.len()]);
                let j = i - dpart.len() - cpart.len();
                if j > 0 {
                    assert(kpart[j] == spec_kind_chars(v.kind)[j - 1]);
                    match v.kind {
                        KindView::Regular => {},
                        KindView::Breaking => {},
                        KindView::Feature(name) => {
                            assert(is_ascii_chars(name));
                        },
                    }
                }
            }
        }
    }
    assert(s.len() >= DATE_LENGTH);
    assert(s.subrange(0, DATE_LENGTH as int) =~= dpart);
    let rem = s.skip(DATE_LENGTH as int);
    assert(rem =~= cpart + kpart);
    if kpart.len() > 0 {
        assert(kpart[0] == '-');
    }
    let tail_rem: Seq<char> = match v.changeset {
        Some(n) => {
            let run = dec_chars(n);
            assert(rem[0] == '.');
            let e = 1 + run.len() as int;
            assert forall|j: int| 1 <= j < e implies is_digit(#[trigger] rem[j]) by {
                assert(rem[j] == run[j - 1]);
            }
            if e < rem.len() {
                assert(rem[e] == kpart[0]);
                assert(!is_digit(rem[e]));
            }
            lemma_digit_run_end_unique(rem, 1, e);
            assert(rem.subrange(1, e) =~= run);
            assert(spec_changeset_parse(run) == Ok::<int, crate::error::ParseChangesetError>(n));
            assert(rem.skip(e) =~= kpart);
            rem.skip(e)
        },
        None => {
            assert(rem =~= kpart);
            if rem.len() > 0 {
                assert(rem[0] == '-');
            }
            rem
        },
    };
    assert(tail_rem == kpart);
    match v.kind {
        KindView::Regular => {
            assert(kpart.len() == 0);
        },
        KindView::Breaking => {
            assert(kpart.skip(1) =~= break_chars());
            assert(spec_kind_parse(kpart.skip(1)) == Ok::<KindView, crate::error::ParseKindError>(
                KindView::Breaking,
            ));
        },
        KindView::Feature(name) => {
            assert(kpart.skip(1) =~= name);
            assert(spec_kind_parse(kpart.skip(1)) == Ok::<KindView, crate::error::ParseKindError>(
                KindView::Feature(name),
            ));
        },
    }
    lemma_date_roundtrip(v.date);
    assert(spec_version_parse(s) == Ok::<VersionView, ParseError>(
        VersionView { date: v.date, changeset: v.changeset, kind: v.kind },
    ));
    assert(VersionView { date: v.date, changeset: v.changeset, kind: v.kind } =~= v);
}

/// Parser soundness: whatever text is parsed, the result is either one of
/// the library's parse errors or a well-formed version, and the year of a
/// parsed version is never negative, since every date group is a plain
/// digit run.
pub proof fn lemma_version_parse_wf(s: Seq<char>)
    ensures
        match spec_version_parse(s) {
            Ok(v) => spec_version_wf(v) && v.date.year >= 0,
            Err(_) => true,
        },
{
    if is_ascii_chars(s) && s.len() >= DATE_LENGTH {
        let date_part = s.subrange(0, DATE_LENGTH as int);
        let rem = s.skip(DATE_LENGTH as int);
        lemma_date_parse_valid(date_part);
        if rem.len() > 0 && rem[0] == '.' {
            let k = spec_digit_run_end(rem, 1);
            lemma_changeset_parse_positive(rem.subrange(1, k));
            lemma_kind_parse_wf(rem.skip(k).skip(1));
        } else {
            lemma_kind_parse_wf(rem.skip(1));
        }
    }
}

/// Total order law: "before" is transitive.
pub proof fn lemma_version_order_transitive(a: VersionView, b: VersionView, c: VersionView)
    requires
        spec_version_cmp(a, b) == core::cmp::Ordering::Less,
        spec_version_cmp(b, c) == core::cmp::Ordering::Less,
    ensures
        spec_version_cmp(a, c) == core::cmp::Ordering::Less,
{
    if a.date == b.date && b.date == c.date && spec_changeset_rank(a.changeset)
        == spec_changeset_rank(b.changeset) && spec_changeset_rank(b.changeset)
        == spec_changeset_rank(c.changeset) {
        lemma_kind_cmp_trans(a.kind, b.kind, c.kind);
    }
}

} // verus!
