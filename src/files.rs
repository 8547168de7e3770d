//! The names of the files a run reads and writes, derived from the input's name.
use crate::text::{chars_of, matches_at, push_char};
use vstd::prelude::*;

verus! {

/// What `to_snake_case` makes of a title.
pub uninterp spec fn snake_case_of(s: Seq<char>) -> Seq<char>;

/// Relies on `inflector::cases::snakecase::to_snake_case`: the result depends on
/// the text alone, and an empty text stays empty.
pub assume_specification[ inflector::cases::snakecase::to_snake_case ](
    non_snake_case_string: &str,
) -> (r: String)
    ensures
        r@ == snake_case_of(non_snake_case_string@),
        non_snake_case_string@.len() == 0 ==> r@.len() == 0,
;

/// The name of the single output file: the album title in snake case, with the extension.
pub fn default_output_name(album: &str, extension: &str) -> (r: String)
    ensures
        r@ == snake_case_of(album@) + "."@ + extension@,
{
    let mut r = inflector::cases::snakecase::to_snake_case(album);
    r.append(".");
    r.append(extension);
    r
}

/// The voucher's file name for an input whose name without extension is `stem`.
pub fn voucher_file_name(stem: &str) -> (r: String)
    ensures
        r@ == stem@ + ".voucher"@,
{
    let mut r = String::from_str(stem);
    r.append(".voucher");
    r
}

/// `s` up to the first occurrence of `m`, or all of `s` when `m` does not occur.
pub open spec fn before_first(s: Seq<char>, m: Seq<char>) -> Seq<char>
    decreases s.len(),
{
    if s.len() < m.len() || s.len() == 0 {
        s
    } else if s.take(m.len() as int) == m {
        Seq::empty()
    } else {
        seq![s[0]] + before_first(s.skip(1), m)
    }
}

/// The chapter table's file name for an input whose name without extension is
/// `stem`: the stem without its `-AAX_...` quality suffix, then `-chapters.json`.
pub fn chapter_file_name(stem: &str) -> (r: String)
    ensures
        r@ == before_first(stem@, "-AAX_"@) + "-chapters.json"@,
{
    let v = chars_of(stem);
    let m = chars_of("-AAX_");
    proof {
        reveal_strlit("-AAX_");
    }
    let mut r = String::new();
    let mut i: usize = 0;
    assert(v@.skip(0) =~= v@);
    while i < v.len()
        invariant
            v@ == stem@,
            m@ == "-AAX_"@,
            m@.len() == 5,
            i <= v@.len(),
            r@ + before_first(v@.skip(i as int), m@) == before_first(stem@, m@),
        decreases v.len() - i,
    {
        let ghost rest = v@.skip(i as int);
        if matches_at(&v, &m, i) {
            assert(rest.take(5) =~= v@.subrange(i as int, i + 5));
            assert(before_first(rest, m@) == Seq::<char>::empty());
            assert(r@ =~= before_first(stem@, m@));
            r.append("-chapters.json");
            return r;
        }
        proof {
            if rest.len() >= 5 {
                assert(rest.take(5) =~= v@.subrange(i as int, i + 5));
            } else {
                assert(before_first(rest, m@) == rest);
                assert(before_first(rest.skip(1), m@) == rest.skip(1));
                assert(rest =~= seq![rest[0]] + rest.skip(1));
            }
            assert(rest.skip(1) =~= v@.skip(i + 1));
        }
        push_char(&mut r, v[i]);
        i = i + 1;
        assert(r@ + before_first(v@.skip(i as int), m@) =~= before_first(stem@, m@));
    }
    assert(v@.skip(i as int) =~= Seq::<char>::empty());
    assert(r@ =~= before_first(stem@, m@));
    r.append("-chapters.json");
    r
}

/// `aaxc`, in any ASCII case.
pub open spec fn is_aaxc(s: Seq<char>) -> bool {
    &&& s.len() == 4
    &&& (s[0] == 'a' || s[0] == 'A')
    &&& (s[1] == 'a' || s[1] == 'A')
    &&& (s[2] == 'x' || s[2] == 'X')
    &&& (s[3] == 'c' || s[3] == 'C')
}

/// Whether an input's extension is `aaxc`, in any ASCII case.
pub fn is_aaxc_extension(extension: &str) -> (r: bool)
    ensures
        r == is_aaxc(extension@),
{
    let v = chars_of(extension);
    v.len() == 4 && (v[0] == 'a' || v[0] == 'A') && (v[1] == 'a' || v[1] == 'A') && (v[2] == 'x'
        || v[2] == 'X') && (v[3] == 'c' || v[3] == 'C')
}

} // verus!
