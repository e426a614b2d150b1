//! Entry paths and the two semantic checks made on them.
//!
//! An entry path is an ordered sequence of segments, held as a `Vec<String>`.
//! Lookup is case-sensitive; two checks are case-insensitive (ASCII folding):
//! whether the first segment is the schema folder "db", and whether the last
//! segment carries the localization suffix ".loc". While any such entry has
//! an open view, switching the active game profile must stay disabled.

use vstd::prelude::*;

verus! {

/// ASCII case folding of one character: uppercase letters map to their
/// lowercase counterpart, everything else is unchanged.
pub open spec fn spec_lower_char(c: char) -> char {
    if 'A' <= c && c <= 'Z' {
        ((c as int) + 32) as char
    } else {
        c
    }
}

/// ASCII case folding of a whole character sequence.
pub open spec fn lower_seq(s: Seq<char>) -> Seq<char> {
    Seq::new(s.len(), |i: int| spec_lower_char(s[i]))
}

/// Whether a segment names the schema folder: it equals "db" up to ASCII
/// case.
pub open spec fn is_schema_segment(s: Seq<char>) -> bool {
    lower_seq(s) == "db"@
}

/// Whether a segment names a localization unit: it ends with ".loc" up to
/// ASCII case.
pub open spec fn is_loc_segment(s: Seq<char>) -> bool {
    s.len() >= 4 && lower_seq(s.subrange(s.len() - 4, s.len() as int)) == ".loc"@
}

/// Whether an open view of this path must keep the profile-switch control
/// disabled: its first segment is the schema folder, or its last segment is
/// a localization unit.
pub open spec fn blocks_profile_switch(p: Seq<Seq<char>>) -> bool {
    p.len() > 0 && (is_schema_segment(p[0]) || is_loc_segment(p[p.len() - 1]))
}

/// Decides whether a segment names the schema folder "db", ignoring ASCII
/// case.
pub fn segment_is_db(s: &String) -> (r: bool)
    ensures
        r == is_schema_segment(s@),
{
    proof {
        reveal_strlit("db");
    }
    let st = s.as_str();
    if st.unicode_len() != 2 {
        assert(lower_seq(s@).len() != "db"@.len());
        return false;
    }
    let c0 = st.get_char(0);
    let c1 = st.get_char(1);
    let r = (c0 == 'd' || c0 == 'D') && (c1 == 'b' || c1 == 'B');
    proof {
        assert(lower_seq(s@)[0] == spec_lower_char(c0));
        assert(lower_seq(s@)[1] == spec_lower_char(c1));
        if r {
            assert(lower_seq(s@) =~= "db"@);
        }
    }
    r
}

/// Decides whether a segment ends with the localization suffix ".loc",
/// ignoring ASCII case.
pub fn segment_is_loc(s: &String) -> (r: bool)
    ensures
        r == is_loc_segment(s@),
{
    proof {
        reveal_strlit(".loc");
    }
    let st = s.as_str();
    let n = st.unicode_len();
    if n < 4 {
        return false;
    }
    let c0 = st.get_char(n - 4);
    let c1 = st.get_char(n - 3);
    let c2 = st.get_char(n - 2);
    let c3 = st.get_char(n - 1);
    let r = c0 == '.' && (c1 == 'l' || c1 == 'L') && (c2 == 'o' || c2 == 'O') && (c3 == 'c' || c3
        == 'C');
    proof {
        let ghost tail = s@.subrange(s@.len() - 4, s@.len() as int);
        assert(spec_lower_char('.') == '.');
        if r {
            assert(lower_seq(tail) =~= ".loc"@);
        } else {
            assert(lower_seq(tail).len() == 4);
            assert(lower_seq(tail)[0] == spec_lower_char(c0));
            assert(lower_seq(tail)[1] == spec_lower_char(c1));
            assert(lower_seq(tail)[2] == spec_lower_char(c2));
            assert(lower_seq(tail)[3] == spec_lower_char(c3));
        }
    }
    r
}

/// Decides whether an open view of this path must keep the profile-switch
/// control disabled.
pub fn path_blocks_profile_switch(p: &Vec<String>) -> (r: bool)
    ensures
        r == blocks_profile_switch(p.deep_view()),
{
    if p.len() == 0 {
        return false;
    }
    let first = segment_is_db(&p[0]);
    let last = segment_is_loc(&p[p.len() - 1]);
    assert(p.deep_view()[0] == p@[0]@);
    assert(p.deep_view()[p.deep_view().len() - 1] == p@[p@.len() - 1]@);
    first || last
}

/// Decides case-sensitive equality of two paths, segment by segment.
pub fn paths_equal(a: &Vec<String>, b: &Vec<String>) -> (r: bool)
    ensures
        r == (a.deep_view() == b.deep_view()),
{
    if a.len() != b.len() {
        assert(a.deep_view().len() != b.deep_view().len());
        return false;
    }
    let n = a.len();
    for i in 0..n
        invariant
            n == a@.len() == b@.len(),
            forall|j: int| 0 <= j < i ==> a.deep_view()[j] == b.deep_view()[j],
    {
        if !(a[i] == b[i]) {
            assert(a.deep_view()[i as int] != b.deep_view()[i as int]);
            return false;
        }
        assert(a.deep_view()[i as int] == b.deep_view()[i as int]);
    }
    proof {
        assert(a.deep_view() =~= b.deep_view());
    }
    true
}

} // verus!
