//! File names and output paths of segments.
use crate::models::chapters::{path_sep, ChapterNamingFormat};
use crate::text::{
    contains, contains_seq, decimal, padded_decimal, push_char, push_decimal, push_padded,
    replace, replace_all, sanitize, sanitized, string_views,
    lemma_padded_decimal_injective,
};
use vstd::prelude::*;

verus! {

/// The file name that `format` gives to segment `number` titled `title`.
pub open spec fn filename_spec(
    format: ChapterNamingFormat,
    number: nat,
    title: Seq<char>,
    ext: Seq<char>,
) -> Seq<char> {
    match format {
        ChapterNamingFormat::ChapterNumberTitle => "Chapter"@ + padded_decimal(number, 2) + "_"@
            + sanitized(title) + "."@ + ext,
        ChapterNamingFormat::NumberTitle => padded_decimal(number, 2) + "_"@ + sanitized(title)
            + "."@ + ext,
        ChapterNamingFormat::TitleOnly => sanitized(title) + "."@ + ext,
        ChapterNamingFormat::Custom(pattern) => custom_filename(pattern@, number, title, ext),
    }
}

/// A custom pattern with its placeholders substituted, in this order:
/// `{chapter:02}`, `{chapter}`, `{number:02}`, `{number}`, `{title}`, `{extension}`.
pub open spec fn custom_filename(pattern: Seq<char>, number: nat, title: Seq<char>, ext: Seq<char>) -> Seq<char> {
    let s1 = replace_all(pattern, "{chapter:02}"@, padded_decimal(number, 2));
    let s2 = replace_all(s1, "{chapter}"@, decimal(number));
    let s3 = replace_all(s2, "{number:02}"@, padded_decimal(number, 2));
    let s4 = replace_all(s3, "{number}"@, decimal(number));
    let s5 = replace_all(s4, "{title}"@, sanitized(title));
    replace_all(s5, "{extension}"@, ext)
}

/// The file name that `format` gives to segment `number` titled `title`.
pub fn render_filename(format: &ChapterNamingFormat, number: usize, title: &str, extension: &str) -> (r: String)
    ensures
        r@ == filename_spec(*format, number as nat, title@, extension@),
{
    let safe = sanitize(title);
    match format {
        ChapterNamingFormat::ChapterNumberTitle => {
            let mut r = String::from_str("Chapter");
            push_padded(&mut r, number as u64, 2);
            r.append("_");
            r.append(safe.as_str());
            r.append(".");
            r.append(extension);
            r
        },
        ChapterNamingFormat::NumberTitle => {
            let mut r = String::new();
            push_padded(&mut r, number as u64, 2);
            r.append("_");
            r.append(safe.as_str());
            r.append(".");
            r.append(extension);
            assert(r@ =~= filename_spec(*format, number as nat, title@, extension@));
            r
        },
        ChapterNamingFormat::TitleOnly => {
            let mut r = safe.clone();
            r.append(".");
            r.append(extension);
            r
        },
        ChapterNamingFormat::Custom(pattern) => {
            let mut padded = String::new();
            push_padded(&mut padded, number as u64, 2);
            let mut plain = String::new();
            push_decimal(&mut plain, number as u64);
            proof {
                reveal_strlit("{chapter:02}");
                reveal_strlit("{chapter}");
                reveal_strlit("{number:02}");
                reveal_strlit("{number}");
                reveal_strlit("{title}");
                reveal_strlit("{extension}");
            }
            let s1 = replace(pattern.as_str(), "{chapter:02}", padded.as_str());
            let s2 = replace(s1.as_str(), "{chapter}", plain.as_str());
            let s3 = replace(s2.as_str(), "{number:02}", padded.as_str());
            let s4 = replace(s3.as_str(), "{number}", plain.as_str());
            let s5 = replace(s4.as_str(), "{title}", safe.as_str());
            let r = replace(s5.as_str(), "{extension}", extension);
            assert(padded@ =~= padded_decimal(number as nat, 2));
            assert(plain@ =~= decimal(number as nat));
            r
        },
    }
}

/// With the numbered templates, two segments that differ only in their number
/// never get the same file name.
pub proof fn lemma_numbered_names_differ(
    format: ChapterNamingFormat,
    n1: nat,
    n2: nat,
    title: Seq<char>,
    ext: Seq<char>,
)
    requires
        format is ChapterNumberTitle || format is NumberTitle,
        n1 != n2,
    ensures
        filename_spec(format, n1, title, ext) != filename_spec(format, n2, title, ext),
{
    let rest = "_"@ + sanitized(title) + "."@ + ext;
    let prefix: Seq<char> = if format is ChapterNumberTitle {
        "Chapter"@
    } else {
        Seq::empty()
    };
    let pad1 = padded_decimal(n1, 2);
    let pad2 = padded_decimal(n2, 2);
    assert(filename_spec(format, n1, title, ext) =~= prefix + pad1 + rest);
    assert(filename_spec(format, n2, title, ext) =~= prefix + pad2 + rest);
    if filename_spec(format, n1, title, ext) == filename_spec(format, n2, title, ext) {
        let f = prefix + pad1 + rest;
        assert(pad1.len() == pad2.len());
        assert(f.subrange(prefix.len() as int, (prefix.len() + pad1.len()) as int) =~= pad1);
        assert((prefix + pad2 + rest).subrange(prefix.len() as int, (prefix.len() + pad2.len()) as int) =~= pad2);
        lemma_padded_decimal_injective(n1, n2, 2);
    }
}

/// The components of `s` between occurrences of ` > `.
pub open spec fn split_path(s: Seq<char>) -> Seq<Seq<char>>
    decreases s.len(),
{
    if s.len() < 3 {
        seq![s]
    } else if s.subrange(0, 3) == path_sep() {
        seq![Seq::<char>::empty()] + split_path(s.skip(3))
    } else {
        let r = split_path(s.skip(1));
        seq![seq![s[0]] + r[0]] + r.skip(1)
    }
}

proof fn lemma_split_nonempty(s: Seq<char>)
    ensures
        split_path(s).len() >= 1,
    decreases s.len(),
{
    if s.len() >= 3 {
        lemma_split_nonempty(s.skip(3));
        lemma_split_nonempty(s.skip(1));
    }
}

/// The components of `s` between occurrences of ` > `.
pub fn split_on_separator(s: &str) -> (r: Vec<String>)
    ensures
        string_views(r@) == split_path(s@),
{
    let v = crate::text::chars_of(s);
    let sep = crate::text::chars_of(" > ");
    proof {
        reveal_strlit(" > ");
    }
    assert(sep@ =~= path_sep());
    let mut parts: Vec<String> = Vec::new();
    let mut cur = String::new();
    let mut i: usize = 0;
    assert(v@.skip(0) =~= v@);
    proof {
        lemma_split_nonempty(s@);
    }
    assert(string_views(parts@) + seq![cur@ + split_path(v@.skip(0))[0]] + split_path(v@.skip(0)).skip(1) =~= split_path(s@));
    while i < v.len()
        invariant
            v@ == s@,
            sep@ == path_sep(),
            i <= v@.len(),
            string_views(parts@) + seq![cur@ + split_path(v@.skip(i as int))[0]] + split_path(v@.skip(i as int)).skip(1)
                == split_path(s@),
        decreases v.len() - i,
    {
        let ghost rest = v@.skip(i as int);
        proof {
            lemma_split_nonempty(v@.skip(i + 1));
            lemma_split_nonempty(v@.skip(i + 3));
            assert(rest.skip(1) =~= v@.skip(i + 1));
            if i + 3 <= v@.len() {
                assert(rest.skip(3) =~= v@.skip(i + 3));
            }
        }
        if crate::text::matches_at(&v, &sep, i) {
            assert(rest.subrange(0, 3) =~= v@.subrange(i as int, i + 3));
            let ghost r2 = split_path(v@.skip(i + 3));
            parts.push(cur);
            cur = String::new();
            i = i + 3;
            assert(string_views(parts@) + seq![cur@ + r2[0]] + r2.skip(1) =~= split_path(s@));
        } else {
            let ghost old_cur = cur@;
            push_char(&mut cur, v[i]);
            proof {
                let r1 = split_path(v@.skip(i + 1));
                if rest.len() >= 3 {
                    assert(rest.subrange(0, 3) =~= v@.subrange(i as int, i + 3));
                    assert(split_path(rest) == seq![seq![rest[0]] + r1[0]] + r1.skip(1));
                } else {
                    assert(r1 == seq![v@.skip(i + 1)]);
                    assert(rest =~= seq![v@[i as int]] + v@.skip(i + 1));
                    assert(split_path(rest) == seq![rest]);
                    assert(r1.skip(1) =~= Seq::<Seq<char>>::empty());
                    assert(split_path(rest).skip(1) =~= Seq::<Seq<char>>::empty());
                }
                assert(old_cur + split_path(rest)[0] =~= cur@ + r1[0]);
                assert(split_path(rest).skip(1) =~= r1.skip(1));
            }
            i = i + 1;
            assert(seq![old_cur + split_path(rest)[0]] + split_path(rest).skip(1) =~= seq![cur@ + split_path(v@.skip(i as int))[0]] + split_path(v@.skip(i as int)).skip(1));
            assert(string_views(parts@) + seq![cur@ + split_path(v@.skip(i as int))[0]] + split_path(v@.skip(i as int)).skip(1)
                =~= split_path(s@));
        }
    }
    assert(v@.skip(i as int) =~= Seq::<char>::empty());
    let ghost before = parts@;
    parts.push(cur);
    assert(string_views(parts@) =~= split_path(s@));
    parts
}

#[derive(Debug, Clone, PartialEq)]
/// Where a segment's file goes: under `base`, inside the nested `dirs`.
pub struct OutputPath {
    pub base: String,
    pub dirs: Vec<String>,
    pub file_name: String,
}

pub struct OutputPathView {
    pub base: Seq<char>,
    pub dirs: Seq<Seq<char>>,
    pub file_name: Seq<char>,
}

impl View for OutputPath {
    type V = OutputPathView;

    open spec fn view(&self) -> OutputPathView {
        OutputPathView { base: self.base@, dirs: string_views(self.dirs@), file_name: self.file_name@ }
    }
}

/// The directories of a segment with hierarchical path `full_path` and file name
/// `file_name`: every component of the path but the last, sanitized. A path of one
/// component gets no directory, unless the file name holds `Chapter` (a content
/// parent), which is placed in a directory named after its own title.
pub open spec fn hierarchical_dirs(full_path: Seq<char>, file_name: Seq<char>) -> Seq<Seq<char>> {
    let parts = split_path(full_path);
    if parts.len() <= 1 {
        if contains_seq(file_name, "Chapter"@) && !contains_seq(full_path, path_sep()) {
            seq![sanitized(full_path)]
        } else {
            Seq::empty()
        }
    } else {
        parts.take(parts.len() - 1).map_values(|p: Seq<char>| sanitized(p))
    }
}

/// The output path of a file named `file_name` whose segment has the hierarchical path `full_path`.
pub fn hierarchical_path(base: &str, full_path: &str, file_name: String) -> (r: OutputPath)
    ensures
        r@ == (OutputPathView {
            base: base@,
            dirs: hierarchical_dirs(full_path@, file_name@),
            file_name: file_name@,
        }),
{
    let parts = split_on_separator(full_path);
    let mut dirs: Vec<String> = Vec::new();
    if parts.len() <= 1 {
        proof {
            reveal_strlit(" > ");
        }
        assert(" > "@ =~= path_sep());
        if contains(file_name.as_str(), "Chapter") && !contains(full_path, " > ") {
            dirs.push(sanitize(full_path));
            assert(string_views(dirs@) =~= hierarchical_dirs(full_path@, file_name@));
        } else {
            assert(string_views(dirs@) =~= hierarchical_dirs(full_path@, file_name@));
        }
    } else {
        let n = parts.len() - 1;
        let mut j: usize = 0;
        while j < n
            invariant
                n == parts@.len() - 1,
                j <= n,
                string_views(parts@) == split_path(full_path@),
                string_views(dirs@) =~= split_path(full_path@).take(j as int).map_values(|p: Seq<char>| sanitized(p)),
            decreases n - j,
        {
            let d = sanitize(parts[j].as_str());
            assert(string_views(parts@)[j as int] == parts@[j as int]@);
            let ghost before = dirs@;
            dirs.push(d);
            assert(string_views(dirs@) =~= string_views(before).push(d@));
            j = j + 1;
            assert(string_views(dirs@) =~= split_path(full_path@).take(j as int).map_values(|p: Seq<char>| sanitized(p)));
        }
    }
    OutputPath { base: String::from_str(base), dirs, file_name }
}

} // verus!
