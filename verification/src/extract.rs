//! Text extraction for the search index: which extractor a file gets, and
//! how the pieces that an extractor read become the indexed text.
//!
//! Files are dispatched by extension: plain text (read lossily), PDF (the
//! text operators of each page), DOCX and PPTX (the text runs of the OOXML
//! parts) and spreadsheets (the cells, tab-separated). Text beyond
//! [`MAX_CHARS`] characters is cut off.

use vstd::prelude::*;
use crate::archive::{
    pdf_loads, pdf_page_content, pdf_page_ids, zip_entry_bytes, zip_entry_count, zip_entry_name, zip_named_bytes,
    zip_opens, PdfReader, ZipReader,
};
use crate::ooxml::{runs_after, runs_result};
use crate::pdf::{content_text, extract_pdf_content_ops, lossy_utf8, pdf_text};
use crate::text::{blank, chars_of, is_blank, push_char, push_str, str_eq, str_starts_with, string_of, sub_chars, starts_with};

verus! {

/// Maximum characters kept per file.
pub const MAX_CHARS: usize = 200000;

/// The extractors.
#[derive(Debug, Clone, Copy, PartialEq, Eq, Structural)]
pub enum Extractor {
    Plain,
    Pdf,
    Docx,
    Pptx,
    Spreadsheet,
}

/// `c` lower-cased if it is an ASCII capital.
pub open spec fn ascii_lower(c: char) -> char {
    if 'A' <= c <= 'Z' {
        ((c as int) + 32) as char
    } else {
        c
    }
}

/// `s` with its ASCII capitals lower-cased.
pub open spec fn lower(s: Seq<char>) -> Seq<char> {
    s.map_values(|c: char| ascii_lower(c))
}

/// `s` with its ASCII capitals lower-cased.
pub fn to_ascii_lower(s: &str) -> (r: String)
    ensures
        r@ == lower(s@),
{
    let v = chars_of(s);
    let mut out = String::new();
    let mut i: usize = 0;
    while i < v.len()
        invariant
            i <= v@.len(),
            v@ == s@,
            out@ == v@.take(i as int).map_values(|c: char| ascii_lower(c)),
        decreases v@.len() - i,
    {
        let c = v[i];
        let l = if 'A' <= c && c <= 'Z' {
            ((c as u32) + 32) as u8 as char
        } else {
            c
        };
        assert(l == ascii_lower(c));
        push_char(&mut out, l);
        assert(v@.take(i + 1).map_values(|c: char| ascii_lower(c)) =~= v@.take(i as int).map_values(
            |c: char| ascii_lower(c),
        ).push(ascii_lower(c)));
        i += 1;
    }
    assert(v@.take(v@.len() as int) =~= v@);
    out
}

/// The extensions read as plain text.
pub open spec fn plain_extensions() -> Seq<Seq<char>> {
    seq![
        "txt"@, "md"@, "markdown"@, "rst"@, "log"@, "ini"@, "cfg"@, "conf"@, "properties"@,
        "csv"@, "tsv"@, "json"@, "yaml"@, "yml"@, "toml"@, "xml"@, "html"@, "htm"@, "css"@,
        "js"@, "ts"@, "jsx"@, "tsx"@, "mjs"@, "cjs"@, "rs"@, "go"@, "py"@, "rb"@, "pl"@,
        "lua"@, "java"@, "kt"@, "c"@, "h"@, "cpp"@, "cc"@, "cxx"@, "hpp"@, "hh"@, "hxx"@,
        "cs"@, "swift"@, "scala"@, "clj"@, "ex"@, "exs"@, "erl"@, "hs"@, "ml"@, "fs"@, "sh"@,
        "bash"@, "zsh"@, "fish"@, "ps1"@, "bat"@, "cmd"@, "sql"@, "graphql"@, "proto"@,
        "dockerfile"@, "makefile"@, "cmake"@
    ]
}

/// The extractor for a lower-cased extension.
pub open spec fn spec_extractor(ext: Seq<char>) -> Option<Extractor> {
    if plain_extensions().contains(ext) {
        Some(Extractor::Plain)
    } else if ext == "pdf"@ {
        Some(Extractor::Pdf)
    } else if ext == "docx"@ {
        Some(Extractor::Docx)
    } else if ext == "pptx"@ {
        Some(Extractor::Pptx)
    } else if ext == "xlsx"@ || ext == "xls"@ || ext == "xlsm"@ || ext == "ods"@ {
        Some(Extractor::Spreadsheet)
    } else {
        None
    }
}

fn plain_list() -> (r: Vec<&'static str>)
    ensures
        r@.map_values(|s: &str| s@) == plain_extensions(),
{
    let r = vec![
        "txt", "md", "markdown", "rst", "log", "ini", "cfg", "conf", "properties",
        "csv", "tsv", "json", "yaml", "yml", "toml", "xml", "html", "htm", "css",
        "js", "ts", "jsx", "tsx", "mjs", "cjs", "rs", "go", "py", "rb", "pl",
        "lua", "java", "kt", "c", "h", "cpp", "cc", "cxx", "hpp", "hh", "hxx",
        "cs", "swift", "scala", "clj", "ex", "exs", "erl", "hs", "ml", "fs", "sh",
        "bash", "zsh", "fish", "ps1", "bat", "cmd", "sql", "graphql", "proto",
        "dockerfile", "makefile", "cmake",
    ];
    assert(r@.map_values(|s: &str| s@) =~= plain_extensions());
    r
}

/// The extractor for extension `ext`, compared without regard to ASCII
/// case.
pub fn extractor_for(ext: &str) -> (r: Option<Extractor>)
    ensures
        r == spec_extractor(lower(ext@)),
{
    let e = to_ascii_lower(ext);
    let list = plain_list();
    let ghost names = list@.map_values(|s: &str| s@);
    let mut i: usize = 0;
    while i < list.len()
        invariant
            i <= list@.len(),
            names == list@.map_values(|s: &str| s@),
            names == plain_extensions(),
            e@ == lower(ext@),
            forall|j: int| 0 <= j < i ==> names[j] != e@,
        decreases list@.len() - i,
    {
        if str_eq(list[i], e.as_str()) {
            assert(names[i as int] == e@);
            assert(plain_extensions().contains(e@));
            return Some(Extractor::Plain);
        }
        i += 1;
    }
    assert(!plain_extensions().contains(e@)) by {
        if plain_extensions().contains(e@) {
            let j = choose|j: int| 0 <= j < names.len() && names[j] == e@;
        }
    }
    let es = e.as_str();
    if str_eq(es, "pdf") {
        Some(Extractor::Pdf)
    } else if str_eq(es, "docx") {
        Some(Extractor::Docx)
    } else if str_eq(es, "pptx") {
        Some(Extractor::Pptx)
    } else if str_eq(es, "xlsx") || str_eq(es, "xls") || str_eq(es, "xlsm") || str_eq(es, "ods") {
        Some(Extractor::Spreadsheet)
    } else {
        None
    }
}

/// The last position of `c` in `s`, if any.
pub open spec fn last_pos(s: Seq<char>, c: char) -> Option<int>
    decreases s.len(),
{
    if s.len() == 0 {
        None
    } else if s.last() == c {
        Some(s.len() - 1)
    } else {
        last_pos(s.drop_last(), c)
    }
}

/// `p` without trailing `/`s.
pub open spec fn strip_trailing_slashes(p: Seq<char>) -> Seq<char>
    decreases p.len(),
{
    if p.len() > 0 && p.last() == '/' {
        strip_trailing_slashes(p.drop_last())
    } else {
        p
    }
}

/// The last component of path `p` (after its last `/`, trailing `/`s
/// ignored); none when it is empty or `..`.
pub open spec fn spec_file_name(p: Seq<char>) -> Option<Seq<char>> {
    let t = strip_trailing_slashes(p);
    let name = match last_pos(t, '/') {
        Some(i) => t.skip(i + 1),
        None => t,
    };
    if name.len() == 0 || name == ".."@ {
        None
    } else {
        Some(name)
    }
}

/// The extension of path `p`: what follows the last `.` of its file name,
/// when that `.` is not the name's first character.
pub open spec fn spec_extension(p: Seq<char>) -> Option<Seq<char>> {
    match spec_file_name(p) {
        Some(name) => match last_pos(name, '.') {
            Some(i) => if i > 0 {
                Some(name.skip(i + 1))
            } else {
                None
            },
            None => None,
        },
        None => None,
    }
}

proof fn lemma_last_pos(s: Seq<char>, c: char)
    ensures
        last_pos(s, c) matches Some(i) ==> 0 <= i < s.len() && s[i] == c && forall|j: int|
            i < j < s.len() ==> s[j] != c,
        last_pos(s, c) is None ==> forall|j: int| 0 <= j < s.len() ==> s[j] != c,
    decreases s.len(),
{
    if s.len() > 0 {
        let d = s.drop_last();
        lemma_last_pos(d, c);
        assert forall|j: int| 0 <= j < d.len() implies d[j] == s[j] by {}
    }
}

fn rfind(v: &Vec<char>, c: char) -> (r: Option<usize>)
    ensures
        match r {
            Some(i) => last_pos(v@, c) == Some(i as int),
            None => last_pos(v@, c) is None,
        },
{
    let mut n = v.len();
    assert(v@.take(n as int) =~= v@);
    while n > 0
        invariant
            n <= v@.len(),
            last_pos(v@, c) == last_pos(v@.take(n as int), c),
        decreases n,
    {
        if v[n - 1] == c {
            assert(v@.take(n as int).last() == c);
            return Some(n - 1);
        }
        assert(v@.take(n as int).drop_last() =~= v@.take(n - 1));
        n -= 1;
    }
    None
}

/// The extension of path `p` (see [`spec_extension`]).
pub fn file_extension(p: &str) -> (r: Option<String>)
    ensures
        match r {
            Some(e) => spec_extension(p@) == Some(e@),
            None => spec_extension(p@) is None,
        },
{
    proof {
        reveal_strlit("..");
    }
    let v = chars_of(p);
    let mut n = v.len();
    assert(v@.take(n as int) =~= v@);
    while n > 0 && v[n - 1] == '/'
        invariant
            n <= v@.len(),
            v@ == p@,
            strip_trailing_slashes(p@) == strip_trailing_slashes(v@.take(n as int)),
        decreases n,
    {
        assert(v@.take(n as int).drop_last() =~= v@.take(n - 1));
        n -= 1;
    }
    let t = sub_chars(v.as_slice(), 0, n);
    assert(t@ =~= v@.take(n as int));
    assert(strip_trailing_slashes(t@) == t@);
    let name = match rfind(&t, '/') {
        Some(i) => {
            proof {
                lemma_last_pos(t@, '/');
            }
            sub_chars(t.as_slice(), i + 1, t.len())
        },
        None => t,
    };
    let nl = name.len();
    if nl == 0 || (nl == 2 && name[0] == '.' && name[1] == '.') {
        proof {
            if nl == 2 {
                assert(name@ =~= ".."@);
            }
        }
        return None;
    }
    assert(name@ != ".."@) by {
        if name@ == ".."@ {
            assert(name@[0] == '.' && name@[1] == '.');
        }
    }
    match rfind(&name, '.') {
        Some(i) => {
            proof {
                lemma_last_pos(name@, '.');
            }
            if i > 0 {
                let e = sub_chars(name.as_slice(), i + 1, name.len());
                Some(string_of(e.as_slice()))
            } else {
                None
            }
        },
        None => None,
    }
}

/// The extractor for the file at path `p`.
pub fn extractor_for_path(p: &str) -> (r: Option<Extractor>)
    ensures
        r == match spec_extension(p@) {
            Some(e) => spec_extractor(lower(e)),
            None => None,
        },
{
    match file_extension(p) {
        Some(e) => extractor_for(e.as_str()),
        None => None,
    }
}

/// `s` cut to its first `max` characters.
pub open spec fn spec_truncate(s: Seq<char>, max: nat) -> Seq<char> {
    if s.len() <= max {
        s
    } else {
        s.take(max as int)
    }
}

/// `s` cut to its first `max` characters (whole characters, not bytes).
pub fn truncate_chars(s: String, max: usize) -> (r: String)
    ensures
        r@ == spec_truncate(s@, max as nat),
{
    let v = chars_of(s.as_str());
    if v.len() <= max {
        s
    } else {
        let t = sub_chars(v.as_slice(), 0, max);
        assert(t@ =~= s@.take(max as int));
        string_of(t.as_slice())
    }
}

/// The text of the PDF pages whose content streams are `pages`, each
/// page's text followed by a line break, starting from `out`.
pub open spec fn pages_text(pages: Seq<Seq<u8>>, out: Seq<char>) -> Seq<char>
    decreases pages.len(),
{
    if pages.len() == 0 {
        out
    } else {
        pages_text(pages.drop_first(), content_text(pages[0], 0, out).push('\n'))
    }
}

/// The indexed text of a PDF whose pages have content streams `pages`, in
/// page order: none when it is all whitespace.
pub fn pdf_pages_text(pages: &Vec<Vec<u8>>) -> (r: Option<String>)
    requires
        forall|i: int| 0 <= i < pages@.len() ==> #[trigger] pages@[i]@.len() < usize::MAX - 3,
    ensures
        ({
            let t = pages_text(pages@.map_values(|p: Vec<u8>| p@), Seq::empty());
            if is_blank(t) {
                r is None
            } else {
                r matches Some(s) && s@ == t
            }
        }),
{
    let ghost ps = pages@.map_values(|p: Vec<u8>| p@);
    let mut out = String::new();
    let mut i: usize = 0;
    assert(ps.skip(0) =~= ps);
    while i < pages.len()
        invariant
            i <= pages@.len(),
            ps == pages@.map_values(|p: Vec<u8>| p@),
            forall|k: int| 0 <= k < pages@.len() ==> #[trigger] pages@[k]@.len() < usize::MAX - 3,
            pages_text(ps, Seq::empty()) == pages_text(ps.skip(i as int), out@),
        decreases pages@.len() - i,
    {
        let page = &pages[i];
        assert(ps.skip(i as int)[0] == page@);
        assert(ps.skip(i as int).drop_first() =~= ps.skip(i + 1));
        extract_pdf_content_ops(page.as_slice(), &mut out);
        push_char(&mut out, '\n');
        i += 1;
    }
    assert(ps.skip(i as int) =~= Seq::<Seq<u8>>::empty());
    if blank(out.as_str()) {
        None
    } else {
        Some(out)
    }
}

/// The strings of `parts` joined with `sep` between them.
pub open spec fn join(parts: Seq<Seq<char>>, sep: Seq<char>) -> Seq<char>
    decreases parts.len(),
{
    if parts.len() == 0 {
        Seq::empty()
    } else if parts.len() == 1 {
        parts[0]
    } else {
        join(parts.drop_last(), sep) + sep + parts.last()
    }
}

/// The strings of `parts` joined with `sep` between them.
pub fn join_strings(parts: &Vec<String>, sep: &str) -> (r: String)
    ensures
        r@ == join(crate::keyed::views(parts@), sep@),
{
    let ghost vs = crate::keyed::views(parts@);
    let mut out = String::new();
    let mut i: usize = 0;
    while i < parts.len()
        invariant
            i <= parts@.len(),
            vs == crate::keyed::views(parts@),
            out@ == join(vs.take(i as int), sep@),
        decreases parts@.len() - i,
    {
        assert(vs.take(i + 1).drop_last() =~= vs.take(i as int));
        if i > 0 {
            push_str(&mut out, sep);
        }
        push_str(&mut out, parts[i].as_str());
        proof {
            if i == 0 {
                assert(out@ =~= vs.take(1)[0]);
            }
        }
        i += 1;
    }
    assert(vs.take(parts@.len() as int) =~= vs);
    out
}

/// `c` is an ASCII digit.
pub open spec fn is_digit(c: char) -> bool {
    '0' <= c <= '9'
}

/// The number that the ASCII digits `d` write in decimal.
pub open spec fn digits_value(d: Seq<char>) -> int
    decreases d.len(),
{
    if d.len() == 0 {
        0
    } else {
        digits_value(d.drop_last()) * 10 + (d.last() as int - 48)
    }
}

/// `s` without one leading `+`.
pub open spec fn strip_plus(s: Seq<char>) -> Seq<char> {
    if s.len() > 0 && s[0] == '+' {
        s.skip(1)
    } else {
        s
    }
}

/// One or more ASCII digits whose value fits in `usize`, and that value.
pub open spec fn parse_digits(d: Seq<char>) -> Option<int> {
    if d.len() > 0 && (forall|i: int| 0 <= i < d.len() ==> is_digit(#[trigger] d[i])) && digits_value(d)
        <= usize::MAX {
        Some(digits_value(d))
    } else {
        None
    }
}

/// What `str::parse::<usize>` gives for `s`: an optional `+` then one or
/// more ASCII digits whose value fits in `usize`.
pub open spec fn spec_parse_usize(s: Seq<char>) -> Option<int> {
    parse_digits(strip_plus(s))
}

proof fn lemma_digits_value_prefix(d: Seq<char>, j: int)
    requires
        0 <= j <= d.len(),
        forall|i: int| 0 <= i < d.len() ==> is_digit(#[trigger] d[i]),
    ensures
        digits_value(d.take(j)) <= digits_value(d),
        0 <= digits_value(d.take(j)),
    decreases d.len() - j,
{
    if j == d.len() {
        assert(d.take(j) =~= d);
        lemma_digits_value_nonneg(d);
    } else {
        lemma_digits_value_prefix(d, j + 1);
        let t = d.take(j + 1);
        assert(t.drop_last() =~= d.take(j));
        assert(is_digit(d[j]));
        lemma_digits_value_nonneg(d.take(j));
    }
}

proof fn lemma_digits_value_nonneg(d: Seq<char>)
    requires
        forall|i: int| 0 <= i < d.len() ==> is_digit(#[trigger] d[i]),
    ensures
        0 <= digits_value(d),
    decreases d.len(),
{
    if d.len() > 0 {
        let p = d.drop_last();
        assert forall|i: int| 0 <= i < p.len() implies is_digit(#[trigger] p[i]) by {
            assert(p[i] == d[i]);
        }
        lemma_digits_value_nonneg(p);
        assert(is_digit(d[d.len() - 1]));
    }
}

/// `str::parse::<usize>` (see [`spec_parse_usize`]).
pub fn parse_usize(s: &str) -> (r: Option<usize>)
    ensures
        r is None <==> spec_parse_usize(s@) is None,
        r matches Some(n) ==> spec_parse_usize(s@) == Some(n as int),
{
    let v = chars_of(s);
    let start: usize = if v.len() > 0 && v[0] == '+' { 1 } else { 0 };
    let ghost d = strip_plus(s@);
    assert(d =~= v@.skip(start as int));
    if start >= v.len() {
        assert(d.len() == 0);
        return None;
    }
    let mut val: usize = 0;
    let mut i: usize = start;
    while i < v.len()
        invariant
            start <= i <= v@.len(),
            start < v@.len(),
            d == v@.skip(start as int),
            d == strip_plus(s@),
            forall|k: int| 0 <= k < i - start ==> is_digit(#[trigger] d[k]),
            val == digits_value(d.take(i - start)),
        decreases v@.len() - i,
    {
        let c = v[i];
        assert(d[i - start] == c);
        if !('0' <= c && c <= '9') {
            assert(!is_digit(d[i - start]));
            return None;
        }
        let digit: usize = ((c as u32) - 48) as usize;
        assert(d.take(i - start + 1).drop_last() =~= d.take(i - start));
        assert(d.take(i - start + 1).last() == c);
        let next = match val.checked_mul(10) {
            Some(m) => m.checked_add(digit),
            None => None,
        };
        match next {
            Some(n) => {
                val = n;
            },
            None => {
                proof {
                    assert(digits_value(d.take(i - start + 1)) == val * 10 + digit);
                    if forall|k: int| 0 <= k < d.len() ==> is_digit(#[trigger] d[k]) {
                        lemma_digits_value_prefix(d, i - start + 1);
                    }
                }
                return None;
            },
        }
        i += 1;
    }
    assert(d.take(d.len() as int) =~= d);
    Some(val)
}

/// The slide number in a PPTX part name `ppt/slides/slide<N>.xml`.
pub open spec fn spec_slide_number(name: Seq<char>) -> Option<int> {
    if name.len() >= 20 && starts_with(name, "ppt/slides/slide"@) && name.skip(name.len() - 4)
        == ".xml"@ {
        spec_parse_usize(name.subrange(16, name.len() - 4))
    } else {
        None
    }
}

/// The slide number in a PPTX part name (see [`spec_slide_number`]).
pub fn slide_number(name: &str) -> (r: Option<usize>)
    ensures
        r is None <==> spec_slide_number(name@) is None,
        r matches Some(n) ==> spec_slide_number(name@) == Some(n as int),
{
    proof {
        reveal_strlit("ppt/slides/slide");
        reveal_strlit(".xml");
    }
    let v = chars_of(name);
    let prefix = chars_of("ppt/slides/slide");
    let n = v.len();
    if n < 20 || !str_starts_with(v.as_slice(), prefix.as_slice()) {
        return None;
    }
    if !(v[n - 4] == '.' && v[n - 3] == 'x' && v[n - 2] == 'm' && v[n - 1] == 'l') {
        proof {
            if v@.skip(n - 4) == ".xml"@ {
                assert(v@.skip(n - 4)[0] == '.');
                assert(v@.skip(n - 4)[1] == 'x');
                assert(v@.skip(n - 4)[2] == 'm');
                assert(v@.skip(n - 4)[3] == 'l');
            }
        }
        return None;
    }
    assert(v@.skip(n - 4) =~= ".xml"@);
    let stem = sub_chars(v.as_slice(), 16, n - 4);
    let st = string_of(stem.as_slice());
    parse_usize(st.as_str())
}

/// `r` holds the entries of `s`, each once, in increasing slide order.
pub open spec fn sorted_arrangement(s: Seq<(usize, Seq<char>)>, r: Seq<(usize, Seq<char>)>) -> bool {
    &&& r.len() == s.len()
    &&& forall|i: int, j: int| 0 <= i < j < r.len() ==> r[i].0 <= r[j].0
    &&& exists|p: Seq<int>|
        p.len() == r.len() && (forall|k: int| 0 <= k < r.len() ==> 0 <= #[trigger] p[k] < s.len() && r[k] == s[p[k]])
            && (forall|a: int, b: int| 0 <= a < b < r.len() ==> p[a] != p[b])
}

/// The texts of `r`, in order.
pub open spec fn texts(r: Seq<(usize, Seq<char>)>) -> Seq<Seq<char>> {
    r.map_values(|e: (usize, Seq<char>)| e.1)
}

/// The model of a list of numbered slides.
pub open spec fn slides_view(v: Seq<(usize, String)>) -> Seq<(usize, Seq<char>)> {
    v.map_values(|e: (usize, String)| (e.0, e.1@))
}

/// The text of a presentation from its numbered slides: the slides' texts in
/// slide order, separated by blank lines; none without slides. (Slides that
/// share a number come in either order.)
pub fn join_slides(entries: Vec<(usize, String)>) -> (r: Option<String>)
    ensures
        entries@.len() == 0 ==> r is None,
        entries@.len() > 0 ==> (r matches Some(t) && exists|a: Seq<(usize, Seq<char>)>|
            sorted_arrangement(slides_view(entries@), a) && t@ == join(texts(a), "\n\n"@)),
{
    if entries.len() == 0 {
        return None;
    }
    let ghost s = slides_view(entries@);
    let mut out: Vec<(usize, String)> = Vec::new();
    let ghost mut p: Seq<int> = Seq::empty();
    let mut i: usize = 0;
    while i < entries.len()
        invariant
            s == slides_view(entries@),
            i <= s.len(),
            out@.len() == i,
            p.len() == i,
            forall|a: int, b: int| 0 <= a < b < i ==> out@[a].0 <= out@[b].0,
            forall|k: int| 0 <= k < i ==> 0 <= #[trigger] p[k] < i && slides_view(out@)[k] == s[p[k]],
            forall|a: int, b: int| 0 <= a < b < i ==> p[a] != p[b],
        decreases s.len() - i,
    {
        let num = entries[i].0;
        let text = entries[i].1.clone();
        let mut pos: usize = 0;
        while pos < out.len() && out[pos].0 <= num
            invariant
                pos <= out@.len(),
                forall|a: int| 0 <= a < pos ==> #[trigger] out@[a].0 <= num,
            decreases out@.len() - pos,
        {
            pos += 1;
        }
        let ghost old_out = out@;
        let ghost old_p = p;
        out.insert(pos, (num, text));
        proof {
            p = old_p.insert(pos as int, i as int);
            let n = out@;
            assert(n =~= old_out.insert(pos as int, (num, text)));
            assert forall|a: int, b: int| 0 <= a < b < i + 1 implies n[a].0 <= n[b].0 by {
                if b < pos {
                } else if b == pos {
                } else if a < pos {
                    assert(n[b] == old_out[b - 1]);
                    assert(old_out[pos as int].0 > num);
                } else if a == pos {
                    assert(n[b] == old_out[b - 1]);
                    assert(old_out[pos as int].0 > num);
                } else {
                    assert(n[a] == old_out[a - 1]);
                    assert(n[b] == old_out[b - 1]);
                }
            }
            assert forall|k: int| 0 <= k < i + 1 implies 0 <= #[trigger] p[k] < i + 1 && slides_view(n)[k] == s[p[k]] by {
                if k < pos {
                    assert(p[k] == old_p[k]);
                    assert(n[k] == old_out[k]);
                } else if k > pos {
                    assert(p[k] == old_p[k - 1]);
                    assert(n[k] == old_out[k - 1]);
                } else {
                    assert(s[i as int] == (num, text@));
                }
            }
            assert forall|a: int, b: int| 0 <= a < b < i + 1 implies p[a] != p[b] by {
                let a2 = if a < pos { a } else { a - 1 };
                let b2 = if b < pos { b } else { b - 1 };
                if a != pos && b != pos {
                    assert(p[a] == old_p[a2]);
                    assert(p[b] == old_p[b2]);
                } else if a == pos {
                    assert(p[b] == old_p[b2]);
                } else {
                    assert(p[a] == old_p[a2]);
                }
            }
        }
        i += 1;
    }
    let mut parts: Vec<String> = Vec::new();
    let mut k: usize = 0;
    while k < out.len()
        invariant
            k <= out@.len(),
            parts@.len() == k,
            forall|m: int| 0 <= m < k ==> #[trigger] parts@[m]@ == out@[m].1@,
        decreases out@.len() - k,
    {
        parts.push(out[k].1.clone());
        k += 1;
    }
    let t = join_strings(&parts, "\n\n");
    proof {
        let a = slides_view(out@);
        assert(crate::keyed::views(parts@) =~= texts(a));
        assert(sorted_arrangement(s, a));
    }
    Some(t)
}

/// A spreadsheet cell, as the index shows it.
#[derive(Debug, Clone, PartialEq, Eq)]
pub enum Cell {
    Int(i64),
    Text(String),
    Bool(bool),
    /// A value already rendered (a number with a fraction, a date, an error).
    Shown(String),
    Empty,
}

/// `i` in decimal, with a `-` when negative.
pub open spec fn int_text(i: int) -> Seq<char> {
    if i < 0 {
        "-"@ + crate::text::decimal((-i) as nat)
    } else {
        crate::text::decimal(i as nat)
    }
}

/// The text of a cell.
pub open spec fn cell_text(c: Cell) -> Seq<char> {
    match c {
        Cell::Int(i) => int_text(i as int),
        Cell::Text(s) => s@,
        Cell::Bool(b) => if b {
            "TRUE"@
        } else {
            "FALSE"@
        },
        Cell::Shown(s) => s@,
        Cell::Empty => Seq::empty(),
    }
}

/// `out` with each cell of a row appended, each followed by a tab.
pub open spec fn cells_text(cells: Seq<Cell>, out: Seq<char>) -> Seq<char>
    decreases cells.len(),
{
    if cells.len() == 0 {
        out
    } else {
        cells_text(cells.drop_first(), out + cell_text(cells[0]) + "\t"@)
    }
}

/// `out` without its last character (unchanged when empty).
pub open spec fn pop(out: Seq<char>) -> Seq<char> {
    if out.len() > 0 {
        out.drop_last()
    } else {
        out
    }
}

/// `out` with a row appended: its cells separated by tabs, then a line
/// break (the tab after the last cell is dropped; a row without cells drops
/// the character before it instead).
pub open spec fn row_text(cells: Seq<Cell>, out: Seq<char>) -> Seq<char> {
    pop(cells_text(cells, out)).push('\n')
}

/// `out` with each row appended.
pub open spec fn rows_text(rows: Seq<Seq<Cell>>, out: Seq<char>) -> Seq<char>
    decreases rows.len(),
{
    if rows.len() == 0 {
        out
    } else {
        rows_text(rows.drop_first(), row_text(rows[0], out))
    }
}

/// `out` with each sheet appended: its name on a line, then its rows.
pub open spec fn sheets_text(sheets: Seq<(Seq<char>, Seq<Seq<Cell>>)>, out: Seq<char>) -> Seq<char>
    decreases sheets.len(),
{
    if sheets.len() == 0 {
        out
    } else {
        sheets_text(sheets.drop_first(), rows_text(sheets[0].1, out + sheets[0].0 + "\n"@))
    }
}

/// The model of a workbook.
pub open spec fn book_view(v: Seq<(String, Vec<Vec<Cell>>)>) -> Seq<(Seq<char>, Seq<Seq<Cell>>)> {
    v.map_values(|s: (String, Vec<Vec<Cell>>)| (s.0@, s.1@.map_values(|r: Vec<Cell>| r@)))
}

fn push_int(out: &mut String, i: i64)
    ensures
        final(out)@ == old(out)@ + int_text(i as int),
{
    if i < 0 {
        push_char(out, '-');
        let m: u64 = (0i128 - (i as i128)) as u64;
        crate::text::push_decimal(out, m);
        proof {
            reveal_strlit("-");
        }
        assert(final(out)@ =~= old(out)@ + int_text(i as int)) by {
            reveal_strlit("-");
        }
    } else {
        crate::text::push_decimal(out, i as u64);
    }
}

fn push_cell(out: &mut String, c: &Cell)
    ensures
        final(out)@ == old(out)@ + cell_text(*c),
{
    match c {
        Cell::Int(i) => push_int(out, *i),
        Cell::Text(s) => push_str(out, s.as_str()),
        Cell::Bool(b) => if *b {
            push_str(out, "TRUE")
        } else {
            push_str(out, "FALSE")
        },
        Cell::Shown(s) => push_str(out, s.as_str()),
        Cell::Empty => {
            assert(old(out)@ + Seq::<char>::empty() =~= old(out)@);
        },
    }
}

fn pop_char(out: &mut String)
    ensures
        final(out)@ == pop(old(out)@),
{
    let v = chars_of(out.as_str());
    if v.len() > 0 {
        let t = sub_chars(v.as_slice(), 0, v.len() - 1);
        assert(t@ =~= old(out)@.drop_last());
        *out = string_of(t.as_slice());
    }
}

fn push_row(out: &mut String, cells: &Vec<Cell>)
    ensures
        final(out)@ == row_text(cells@, old(out)@),
{
    let mut i: usize = 0;
    assert(cells@.skip(0) =~= cells@);
    while i < cells.len()
        invariant
            i <= cells@.len(),
            cells_text(cells@, old(out)@) == cells_text(cells@.skip(i as int), out@),
        decreases cells@.len() - i,
    {
        assert(cells@.skip(i as int)[0] == cells@[i as int]);
        assert(cells@.skip(i as int).drop_first() =~= cells@.skip(i + 1));
        push_cell(out, &cells[i]);
        push_str(out, "\t");
        i += 1;
    }
    assert(cells@.skip(i as int) =~= Seq::<Cell>::empty());
    pop_char(out);
    push_char(out, '\n');
}

/// The indexed text of a workbook: for each sheet, its name on a line and
/// then its rows, cells separated by tabs; none when all whitespace.
pub fn workbook_text(sheets: &Vec<(String, Vec<Vec<Cell>>)>) -> (r: Option<String>)
    ensures
        ({
            let t = sheets_text(book_view(sheets@), Seq::empty());
            if is_blank(t) {
                r is None
            } else {
                r matches Some(s) && s@ == t
            }
        }),
{
    let ghost b = book_view(sheets@);
    let mut out = String::new();
    let mut i: usize = 0;
    assert(b.skip(0) =~= b);
    while i < sheets.len()
        invariant
            i <= sheets@.len(),
            b == book_view(sheets@),
            sheets_text(b, Seq::empty()) == sheets_text(b.skip(i as int), out@),
        decreases sheets@.len() - i,
    {
        let sheet = &sheets[i];
        let ghost before = out@;
        assert(b.skip(i as int)[0] == b[i as int]);
        assert(b.skip(i as int).drop_first() =~= b.skip(i + 1));
        push_str(&mut out, sheet.0.as_str());
        push_char(&mut out, '\n');
        let ghost start = out@;
        let rows = &sheet.1;
        let ghost rv = rows@.map_values(|r: Vec<Cell>| r@);
        assert(rv == b[i as int].1);
        let mut k: usize = 0;
        assert(rv.skip(0) =~= rv);
        while k < rows.len()
            invariant
                k <= rows@.len(),
                rv == rows@.map_values(|r: Vec<Cell>| r@),
                rows_text(rv, start) == rows_text(rv.skip(k as int), out@),
            decreases rows@.len() - k,
        {
            assert(rv.skip(k as int)[0] == rows@[k as int]@);
            assert(rv.skip(k as int).drop_first() =~= rv.skip(k + 1));
            push_row(&mut out, &rows[k]);
            k += 1;
        }
        assert(rv.skip(k as int) =~= Seq::<Seq<Cell>>::empty());
        proof {
            reveal_strlit("\n");
            assert(start =~= before + b[i as int].0 + "\n"@);
        }
        i += 1;
    }
    assert(b.skip(i as int) =~= Seq::<(Seq<char>, Seq<Seq<Cell>>)>::empty());
    if blank(out.as_str()) {
        None
    } else {
        Some(out)
    }
}

/// An OCR engine, for images and scans: text from image bytes (PNG, JPEG,
/// TIFF), or none when the image is empty or unreadable. Extraction does not
/// call it yet.
pub trait OcrEngine: Send + Sync {
    fn ocr(&self, image_bytes: &[u8]) -> Option<String>;
}

/// What an extractor read from a file.
pub enum Extracted {
    /// The bytes of a plain-text file.
    Plain(Vec<u8>),
    /// The content streams of a PDF's pages, in page order.
    Pdf(Vec<Vec<u8>>),
    /// The text runs of a DOCX body, when it has some.
    Docx(Option<Vec<String>>),
    /// The numbered slides of a PPTX, each with its text.
    Pptx(Vec<(usize, String)>),
    /// The sheets of a workbook, in order.
    Sheets(Vec<(String, Vec<Vec<Cell>>)>),
    /// The file could not be read as its type.
    Nothing,
}

/// The tag of a text run in a PPTX slide, `a:t`.
pub open spec fn slide_run_tag() -> Seq<u8> {
    seq![97u8, 58u8, 116u8]
}

/// A PPTX part that is a slide with text: its number and its runs (of
/// [`slide_run_tag`]) joined; none for another part, or a slide without
/// text.
pub fn slide_entry(name: &str, xml: &[u8]) -> (r: Option<(usize, String)>)
    ensures
        match spec_slide_number(name@) {
            None => r is None,
            Some(n) => match runs_result(runs_after(xml@, slide_run_tag(), (xml@.len() + 1) as nat)) {
                None => r is None,
                Some(rs) => r matches Some((m, t)) && m == n && t@ == join(rs, ""@),
            },
        },
{
    let tag: [u8; 3] = [97, 58, 116];
    assert(tag@ =~= slide_run_tag());
    match slide_number(name) {
        Some(n) => match crate::ooxml::parse_ooxml_text(xml, tag.as_slice()) {
            Some(parts) => Some((n, join_strings(&parts, ""))),
            None => None,
        },
        None => None,
    }
}

/// The indexed text of a file from what its extractor read, cut to
/// [`MAX_CHARS`] characters: plain text decoded lossily; a PDF's pages
/// ([`pdf_pages_text`]); a DOCX's runs joined; a PPTX's slides
/// ([`join_slides`]); a workbook ([`workbook_text`]); nothing otherwise.
pub fn extracted_text(e: Extracted) -> (r: Option<String>)
    requires
        e matches Extracted::Pdf(pages) ==> forall|i: int| 0 <= i < pages@.len() ==> #[trigger] pages@[i]@.len()
            < usize::MAX - 3,
    ensures
        match e {
            Extracted::Plain(b) => r matches Some(t) && t@ == spec_truncate(lossy_utf8(b@), MAX_CHARS as nat),
            Extracted::Pdf(pages) => {
                let t = pages_text(pages@.map_values(|p: Vec<u8>| p@), Seq::empty());
                if is_blank(t) {
                    r is None
                } else {
                    r matches Some(s) && s@ == spec_truncate(t, MAX_CHARS as nat)
                }
            },
            Extracted::Docx(parts) => match parts {
                Some(ps) => r matches Some(s) && s@ == spec_truncate(join(crate::keyed::views(ps@), ""@), MAX_CHARS as nat),
                None => r is None,
            },
            Extracted::Pptx(slides) => {
                &&& slides@.len() == 0 ==> r is None
                &&& slides@.len() > 0 ==> (r matches Some(t) && exists|a: Seq<(usize, Seq<char>)>|
                    sorted_arrangement(slides_view(slides@), a) && t@ == spec_truncate(
                        join(texts(a), "\n\n"@),
                        MAX_CHARS as nat,
                    ))
            },
            Extracted::Sheets(sheets) => {
                let t = sheets_text(book_view(sheets@), Seq::empty());
                if is_blank(t) {
                    r is None
                } else {
                    r matches Some(s) && s@ == spec_truncate(t, MAX_CHARS as nat)
                }
            },
            Extracted::Nothing => r is None,
        },
{
    let text = match &e {
        Extracted::Plain(b) => Some(pdf_text(b.as_slice())),
        Extracted::Pdf(pages) => pdf_pages_text(pages),
        Extracted::Docx(parts) => match parts {
            Some(ps) => {
                Some(join_strings(ps, ""))
            },
            None => None,
        },
        Extracted::Pptx(slides) => {
            let mut copy: Vec<(usize, String)> = Vec::new();
            let mut i: usize = 0;
            while i < slides.len()
                invariant
                    i <= slides@.len(),
                    copy@.len() == i,
                    forall|k: int| 0 <= k < i ==> #[trigger] copy@[k].0 == slides@[k].0 && copy@[k].1@ == slides@[k].1@,
                decreases slides@.len() - i,
            {
                copy.push((slides[i].0, slides[i].1.clone()));
                i += 1;
            }
            assert(slides_view(copy@) =~= slides_view(slides@));
            join_slides(copy)
        },
        Extracted::Sheets(sheets) => workbook_text(sheets),
        Extracted::Nothing => None,
    };
    match text {
        Some(t) => Some(truncate_chars(t, MAX_CHARS)),
        None => None,
    }
}

/// The tag of a text run in a DOCX body, `w:t`.
pub open spec fn docx_run_tag() -> Seq<u8> {
    seq![119u8, 58u8, 116u8]
}

/// The text runs of the DOCX `bytes`: those of its `word/document.xml`;
/// none when the archive, that part or its runs cannot be read.
pub open spec fn docx_runs(bytes: Seq<u8>) -> Option<Seq<Seq<char>>> {
    if !zip_opens(bytes) {
        None
    } else {
        match zip_named_bytes(bytes, "word/document.xml"@) {
            None => None,
            Some(x) => runs_result(runs_after(x, docx_run_tag(), (x.len() + 1) as nat)),
        }
    }
}

/// What the PPTX part `name` with content `xml` gives (as [`slide_entry`]
/// does): its slide number and its runs joined.
pub open spec fn slide_of(name: Seq<char>, xml: Seq<u8>) -> Option<(usize, Seq<char>)> {
    match spec_slide_number(name) {
        None => None,
        Some(n) => match runs_result(runs_after(xml, slide_run_tag(), (xml.len() + 1) as nat)) {
            None => None,
            Some(rs) => Some((n as usize, join(rs, ""@))),
        },
    }
}

/// The slides found in the first `k` entries of the archive `bytes`, in
/// entry order: an entry whose name is a slide's and whose content can be
/// read gives that slide, when it has text.
pub open spec fn pptx_slides_upto(bytes: Seq<u8>, k: nat) -> Seq<(usize, Seq<char>)>
    decreases k,
{
    if k == 0 {
        Seq::empty()
    } else {
        let prev = pptx_slides_upto(bytes, (k - 1) as nat);
        match zip_entry_name(bytes, (k - 1) as nat) {
            Some(n) => if spec_slide_number(n) is Some {
                match zip_entry_bytes(bytes, (k - 1) as nat) {
                    Some(x) => match slide_of(n, x) {
                        Some(e) => prev.push(e),
                        None => prev,
                    },
                    None => prev,
                }
            } else {
                prev
            },
            None => prev,
        }
    }
}

/// The slides of the PPTX `bytes`: none when the archive cannot be read.
pub open spec fn pptx_slides(bytes: Seq<u8>) -> Seq<(usize, Seq<char>)> {
    if zip_opens(bytes) {
        pptx_slides_upto(bytes, zip_entry_count(bytes))
    } else {
        Seq::empty()
    }
}

/// The content streams of the pages of the PDF `bytes`, in page order.
pub open spec fn pdf_contents(bytes: Seq<u8>) -> Seq<Seq<u8>> {
    pdf_page_ids(bytes).map_values(|id: (u32, u16)| pdf_page_content(bytes, id))
}

/// Every page's content is short enough for the scanner's indices.
pub open spec fn pdf_pages_fit(bytes: Seq<u8>) -> bool {
    forall|i: int| 0 <= i < pdf_contents(bytes).len() ==> #[trigger] pdf_contents(bytes)[i].len() < usize::MAX - 3
}

/// The indexed text of a file of kind `kind` (not a spreadsheet) whose
/// bytes are `bytes`, cut to [`MAX_CHARS`] characters: plain text decoded
/// lossily; a PDF's pages scanned for text operators; a DOCX's runs joined;
/// a PPTX's slides in slide order, separated by blank lines; none where the
/// document cannot be read or has no text. Spreadsheets are read by the
/// caller: their number cells are floating point.
pub fn extract_bytes(kind: Extractor, bytes: &[u8]) -> (r: Option<String>)
    requires
        !(kind is Spreadsheet),
    ensures
        match kind {
            Extractor::Plain => r matches Some(t) && t@ == spec_truncate(lossy_utf8(bytes@), MAX_CHARS as nat),
            Extractor::Pdf => if !pdf_loads(bytes@) || !pdf_pages_fit(bytes@) {
                r is None
            } else {
                let t = pages_text(pdf_contents(bytes@), Seq::empty());
                if is_blank(t) {
                    r is None
                } else {
                    r matches Some(s) && s@ == spec_truncate(t, MAX_CHARS as nat)
                }
            },
            Extractor::Docx => match docx_runs(bytes@) {
                Some(rs) => r matches Some(s) && s@ == spec_truncate(join(rs, ""@), MAX_CHARS as nat),
                None => r is None,
            },
            Extractor::Pptx => {
                let sl = pptx_slides(bytes@);
                &&& sl.len() == 0 ==> r is None
                &&& sl.len() > 0 ==> (r matches Some(t) && exists|a: Seq<(usize, Seq<char>)>|
                    sorted_arrangement(sl, a) && t@ == spec_truncate(join(texts(a), "\n\n"@), MAX_CHARS as nat))
            },
            Extractor::Spreadsheet => true,
        },
{
    match kind {
        Extractor::Plain => extracted_text(Extracted::Plain(vstd::slice::slice_to_vec(bytes))),
        Extractor::Pdf => match pdf_pages_of(bytes) {
            Some(pages) => {
                proof {
                    assert forall|i: int| 0 <= i < pages@.len() implies #[trigger] pages@[i]@.len() < usize::MAX
                        - 3 by {
                        assert(pages@.map_values(|p: Vec<u8>| p@)[i] == pages@[i]@);
                        assert(pdf_contents(bytes@)[i].len() < usize::MAX - 3);
                    }
                }
                extracted_text(Extracted::Pdf(pages))
            },
            None => None,
        },
        Extractor::Docx => extracted_text(Extracted::Docx(docx_runs_of(bytes))),
        Extractor::Pptx => extracted_text(Extracted::Pptx(pptx_slides_of(bytes))),
        Extractor::Spreadsheet => None,
    }
}

/// The content streams of the pages of the PDF `bytes`, in page order;
/// none when it cannot be loaded or a page is too long to scan.
pub fn pdf_pages_of(bytes: &[u8]) -> (r: Option<Vec<Vec<u8>>>)
    ensures
        match r {
            Some(pages) => pdf_loads(bytes@) && pdf_pages_fit(bytes@) && pages@.map_values(|p: Vec<u8>| p@)
                == pdf_contents(bytes@),
            None => !pdf_loads(bytes@) || !pdf_pages_fit(bytes@),
        },
{
    let d = match PdfReader::load(bytes) {
        Some(d) => d,
        None => return None,
    };
    let ids = d.page_ids();
    let ghost all = pdf_contents(bytes@);
    let mut pages: Vec<Vec<u8>> = Vec::new();
    let mut i: usize = 0;
    while i < ids.len()
        invariant
            d@ == bytes@,
            ids@ == pdf_page_ids(bytes@),
            all == pdf_contents(bytes@),
            i <= ids@.len(),
            pages@.len() == i,
            forall|k: int| 0 <= k < i ==> #[trigger] pages@[k]@ == all[k],
            forall|k: int| 0 <= k < i ==> #[trigger] all[k].len() < usize::MAX - 3,
        decreases ids@.len() - i,
    {
        let c = d.page_content(ids[i]);
        if c.len() >= usize::MAX - 3 {
            assert(all[i as int] == c@);
            return None;
        }
        pages.push(c);
        i += 1;
    }
    assert(pages@.map_values(|p: Vec<u8>| p@) =~= all);
    Some(pages)
}

/// The text runs of the DOCX `bytes` (see [`docx_runs`]).
pub fn docx_runs_of(bytes: &[u8]) -> (r: Option<Vec<String>>)
    ensures
        match docx_runs(bytes@) {
            Some(rs) => r matches Some(v) && crate::keyed::views(v@) == rs,
            None => r is None,
        },
{
    let mut z = match ZipReader::open(bytes) {
        Some(z) => z,
        None => return None,
    };
    match z.bytes_named("word/document.xml") {
        Some(x) => {
            let tag: [u8; 3] = [119, 58, 116];
            assert(tag@ =~= docx_run_tag());
            crate::ooxml::parse_ooxml_text(x.as_slice(), tag.as_slice())
        },
        None => None,
    }
}

/// The slides of the PPTX `bytes`, in entry order (see [`pptx_slides`]).
pub fn pptx_slides_of(bytes: &[u8]) -> (r: Vec<(usize, String)>)
    ensures
        slides_view(r@) == pptx_slides(bytes@),
{
    let mut z = match ZipReader::open(bytes) {
        Some(z) => z,
        None => {
            let v: Vec<(usize, String)> = Vec::new();
            assert(slides_view(v@) =~= Seq::<(usize, Seq<char>)>::empty());
            return v;
        },
    };
    let n = z.len();
    let mut slides: Vec<(usize, String)> = Vec::new();
    let mut i: usize = 0;
    assert(slides_view(slides@) =~= pptx_slides_upto(bytes@, 0));
    while i < n
        invariant
            z@ == bytes@,
            n == zip_entry_count(bytes@),
            i <= n,
            slides_view(slides@) == pptx_slides_upto(bytes@, i as nat),
        decreases n - i,
    {
        let ghost prev = slides@;
        match z.name_at(i) {
            Some(name) => {
                if slide_number(name.as_str()).is_some() {
                    match z.bytes_at(i) {
                        Some(x) => match slide_entry(name.as_str(), x.as_slice()) {
                            Some(e) => {
                                slides.push(e);
                                assert(slides_view(slides@) =~= slides_view(prev).push((e.0, e.1@)));
                            },
                            None => {},
                        },
                        None => {},
                    }
                }
            },
            None => {},
        }
        i += 1;
    }
    slides
}

/// A document extension (one that names the PDF, Word, PowerPoint or
/// spreadsheet extractor) is not a plain-text one.
#[verifier::rlimit(80)]
#[verifier::spinoff_prover]
proof fn lemma_not_plain(e: Seq<char>)
    requires
        e == "pdf"@ || e == "docx"@ || e == "pptx"@ || e == "xlsx"@ || e == "xls"@ || e == "xlsm"@ || e == "ods"@,
    ensures
        !plain_extensions().contains(e),
{
    reveal_strlit("txt");
    assert("txt"@.len() == 3);
    assert("txt"@[0] == 't');
    assert("txt"@[1] == 'x');
    assert("txt"@[2] == 't');
    reveal_strlit("md");
    assert("md"@.len() == 2);
    assert("md"@[0] == 'm');
    assert("md"@[1] == 'd');
    reveal_strlit("markdown");
    assert("markdown"@.len() == 8);
    assert("markdown"@[0] == 'm');
    assert("markdown"@[1] == 'a');
    assert("markdown"@[2] == 'r');
    assert("markdown"@[3] == 'k');
    assert("markdown"@[4] == 'd');
    assert("markdown"@[5] == 'o');
    assert("markdown"@[6] == 'w');
    assert("markdown"@[7] == 'n');
    reveal_strlit("rst");
    assert("rst"@.len() == 3);
    assert("rst"@[0] == 'r');
    assert("rst"@[1] == 's');
    assert("rst"@[2] == 't');
    reveal_strlit("log");
    assert("log"@.len() == 3);
    assert("log"@[0] == 'l');
    assert("log"@[1] == 'o');
    assert("log"@[2] == 'g');
    reveal_strlit("ini");
    assert("ini"@.len() == 3);
    assert("ini"@[0] == 'i');
    assert("ini"@[1] == 'n');
    assert("ini"@[2] == 'i');
    reveal_strlit("cfg");
    assert("cfg"@.len() == 3);
    assert("cfg"@[0] == 'c');
    assert("cfg"@[1] == 'f');
    assert("cfg"@[2] == 'g');
    reveal_strlit("conf");
    assert("conf"@.len() == 4);
    assert("conf"@[0] == 'c');
    assert("conf"@[1] == 'o');
    assert("conf"@[2] == 'n');
    assert("conf"@[3] == 'f');
    reveal_strlit("properties");
    assert("properties"@.len() == 10);
    assert("properties"@[0] == 'p');
    assert("properties"@[1] == 'r');
    assert("properties"@[2] == 'o');
    assert("properties"@[3] == 'p');
    assert("properties"@[4] == 'e');
    assert("properties"@[5] == 'r');
    assert("properties"@[6] == 't');
    assert("properties"@[7] == 'i');
    assert("properties"@[8] == 'e');
    assert("properties"@[9] == 's');
    reveal_strlit("csv");
    assert("csv"@.len() == 3);
    assert("csv"@[0] == 'c');
    assert("csv"@[1] == 's');
    assert("csv"@[2] == 'v');
    reveal_strlit("tsv");
    assert("tsv"@.len() == 3);
    assert("tsv"@[0] == 't');
    assert("tsv"@[1] == 's');
    assert("tsv"@[2] == 'v');
    reveal_strlit("json");
    assert("json"@.len() == 4);
    assert("json"@[0] == 'j');
    assert("json"@[1] == 's');
    assert("json"@[2] == 'o');
    assert("json"@[3] == 'n');
    reveal_strlit("yaml");
    assert("yaml"@.len() == 4);
    assert("yaml"@[0] == 'y');
    assert("yaml"@[1] == 'a');
    assert("yaml"@[2] == 'm');
    assert("yaml"@[3] == 'l');
    reveal_strlit("yml");
    assert("yml"@.len() == 3);
    assert("yml"@[0] == 'y');
    assert("yml"@[1] == 'm');
    assert("yml"@[2] == 'l');
    reveal_strlit("toml");
    assert("toml"@.len() == 4);
    assert("toml"@[0] == 't');
    assert("toml"@[1] == 'o');
    assert("toml"@[2] == 'm');
    assert("toml"@[3] == 'l');
    reveal_strlit("xml");
    assert("xml"@.len() == 3);
    assert("xml"@[0] == 'x');
    assert("xml"@[1] == 'm');
    assert("xml"@[2] == 'l');
    reveal_strlit("html");
    assert("html"@.len() == 4);
    assert("html"@[0] == 'h');
    assert("html"@[1] == 't');
    assert("html"@[2] == 'm');
    assert("html"@[3] == 'l');
    reveal_strlit("htm");
    assert("htm"@.len() == 3);
    assert("htm"@[0] == 'h');
    assert("htm"@[1] == 't');
    assert("htm"@[2] == 'm');
    reveal_strlit("css");
    assert("css"@.len() == 3);
    assert("css"@[0] == 'c');
    assert("css"@[1] == 's');
    assert("css"@[2] == 's');
    reveal_strlit("js");
    assert("js"@.len() == 2);
    assert("js"@[0] == 'j');
    assert("js"@[1] == 's');
    reveal_strlit("ts");
    assert("ts"@.len() == 2);
    assert("ts"@[0] == 't');
    assert("ts"@[1] == 's');
    reveal_strlit("jsx");
    assert("jsx"@.len() == 3);
    assert("jsx"@[0] == 'j');
    assert("jsx"@[1] == 's');
    assert("jsx"@[2] == 'x');
    reveal_strlit("tsx");
    assert("tsx"@.len() == 3);
    assert("tsx"@[0] == 't');
    assert("tsx"@[1] == 's');
    assert("tsx"@[2] == 'x');
    reveal_strlit("mjs");
    assert("mjs"@.len() == 3);
    assert("mjs"@[0] == 'm');
    assert("mjs"@[1] == 'j');
    assert("mjs"@[2] == 's');
    reveal_strlit("cjs");
    assert("cjs"@.len() == 3);
    assert("cjs"@[0] == 'c');
    assert("cjs"@[1] == 'j');
    assert("cjs"@[2] == 's');
    reveal_strlit("rs");
    assert("rs"@.len() == 2);
    assert("rs"@[0] == 'r');
    assert("rs"@[1] == 's');
    reveal_strlit("go");
    assert("go"@.len() == 2);
    assert("go"@[0] == 'g');
    assert("go"@[1] == 'o');
    reveal_strlit("py");
    assert("py"@.len() == 2);
    assert("py"@[0] == 'p');
    assert("py"@[1] == 'y');
    reveal_strlit("rb");
    assert("rb"@.len() == 2);
    assert("rb"@[0] == 'r');
    assert("rb"@[1] == 'b');
    reveal_strlit("pl");
    assert("pl"@.len() == 2);
    assert("pl"@[0] == 'p');
    assert("pl"@[1] == 'l');
    reveal_strlit("lua");
    assert("lua"@.len() == 3);
    assert("lua"@[0] == 'l');
    assert("lua"@[1] == 'u');
    assert("lua"@[2] == 'a');
    reveal_strlit("java");
    assert("java"@.len() == 4);
    assert("java"@[0] == 'j');
    assert("java"@[1] == 'a');
    assert("java"@[2] == 'v');
    assert("java"@[3] == 'a');
    reveal_strlit("kt");
    assert("kt"@.len() == 2);
    assert("kt"@[0] == 'k');
    assert("kt"@[1] == 't');
    reveal_strlit("c");
    assert("c"@.len() == 1);
    assert("c"@[0] == 'c');
    reveal_strlit("h");
    assert("h"@.len() == 1);
    assert("h"@[0] == 'h');
    reveal_strlit("cpp");
    assert("cpp"@.len() == 3);
    assert("cpp"@[0] == 'c');
    assert("cpp"@[1] == 'p');
    assert("cpp"@[2] == 'p');
    reveal_strlit("cc");
    assert("cc"@.len() == 2);
    assert("cc"@[0] == 'c');
    assert("cc"@[1] == 'c');
    reveal_strlit("cxx");
    assert("cxx"@.len() == 3);
    assert("cxx"@[0] == 'c');
    assert("cxx"@[1] == 'x');
    assert("cxx"@[2] == 'x');
    reveal_strlit("hpp");
    assert("hpp"@.len() == 3);
    assert("hpp"@[0] == 'h');
    assert("hpp"@[1] == 'p');
    assert("hpp"@[2] == 'p');
    reveal_strlit("hh");
    assert("hh"@.len() == 2);
    assert("hh"@[0] == 'h');
    assert("hh"@[1] == 'h');
    reveal_strlit("hxx");
    assert("hxx"@.len() == 3);
    assert("hxx"@[0] == 'h');
    assert("hxx"@[1] == 'x');
    assert("hxx"@[2] == 'x');
    reveal_strlit("cs");
    assert("cs"@.len() == 2);
    assert("cs"@[0] == 'c');
    assert("cs"@[1] == 's');
    reveal_strlit("swift");
    assert("swift"@.len() == 5);
    assert("swift"@[0] == 's');
    assert("swift"@[1] == 'w');
    assert("swift"@[2] == 'i');
    assert("swift"@[3] == 'f');
    assert("swift"@[4] == 't');
    reveal_strlit("scala");
    assert("scala"@.len() == 5);
    assert("scala"@[0] == 's');
    assert("scala"@[1] == 'c');
    assert("scala"@[2] == 'a');
    assert("scala"@[3] == 'l');
    assert("scala"@[4] == 'a');
    reveal_strlit("clj");
    assert("clj"@.len() == 3);
    assert("clj"@[0] == 'c');
    assert("clj"@[1] == 'l');
    assert("clj"@[2] == 'j');
    reveal_strlit("ex");
    assert("ex"@.len() == 2);
    assert("ex"@[0] == 'e');
    assert("ex"@[1] == 'x');
    reveal_strlit("exs");
    assert("exs"@.len() == 3);
    assert("exs"@[0] == 'e');
    assert("exs"@[1] == 'x');
    assert("exs"@[2] == 's');
    reveal_strlit("erl");
    assert("erl"@.len() == 3);
    assert("erl"@[0] == 'e');
    assert("erl"@[1] == 'r');
    assert("erl"@[2] == 'l');
    reveal_strlit("hs");
    assert("hs"@.len() == 2);
    assert("hs"@[0] == 'h');
    assert("hs"@[1] == 's');
    reveal_strlit("ml");
    assert("ml"@.len() == 2);
    assert("ml"@[0] == 'm');
    assert("ml"@[1] == 'l');
    reveal_strlit("fs");
    assert("fs"@.len() == 2);
    assert("fs"@[0] == 'f');
    assert("fs"@[1] == 's');
    reveal_strlit("sh");
    assert("sh"@.len() == 2);
    assert("sh"@[0] == 's');
    assert("sh"@[1] == 'h');
    reveal_strlit("bash");
    assert("bash"@.len() == 4);
    assert("bash"@[0] == 'b');
    assert("bash"@[1] == 'a');
    assert("bash"@[2] == 's');
    assert("bash"@[3] == 'h');
    reveal_strlit("zsh");
    assert("zsh"@.len() == 3);
    assert("zsh"@[0] == 'z');
    assert("zsh"@[1] == 's');
    assert("zsh"@[2] == 'h');
    reveal_strlit("fish");
    assert("fish"@.len() == 4);
    assert("fish"@[0] == 'f');
    assert("fish"@[1] == 'i');
    assert("fish"@[2] == 's');
    assert("fish"@[3] == 'h');
    reveal_strlit("ps1");
    assert("ps1"@.len() == 3);
    assert("ps1"@[0] == 'p');
    assert("ps1"@[1] == 's');
    assert("ps1"@[2] == '1');
    reveal_strlit("bat");
    assert("bat"@.len() == 3);
    assert("bat"@[0] == 'b');
    assert("bat"@[1] == 'a');
    assert("bat"@[2] == 't');
    reveal_strlit("cmd");
    assert("cmd"@.len() == 3);
    assert("cmd"@[0] == 'c');
    assert("cmd"@[1] == 'm');
    assert("cmd"@[2] == 'd');
    reveal_strlit("sql");
    assert("sql"@.len() == 3);
    assert("sql"@[0] == 's');
    assert("sql"@[1] == 'q');
    assert("sql"@[2] == 'l');
    reveal_strlit("graphql");
    assert("graphql"@.len() == 7);
    assert("graphql"@[0] == 'g');
    assert("graphql"@[1] == 'r');
    assert("graphql"@[2] == 'a');
    assert("graphql"@[3] == 'p');
    assert("graphql"@[4] == 'h');
    assert("graphql"@[5] == 'q');
    assert("graphql"@[6] == 'l');
    reveal_strlit("proto");
    assert("proto"@.len() == 5);
    assert("proto"@[0] == 'p');
    assert("proto"@[1] == 'r');
    assert("proto"@[2] == 'o');
    assert("proto"@[3] == 't');
    assert("proto"@[4] == 'o');
    reveal_strlit("dockerfile");
    assert("dockerfile"@.len() == 10);
    assert("dockerfile"@[0] == 'd');
    assert("dockerfile"@[1] == 'o');
    assert("dockerfile"@[2] == 'c');
    assert("dockerfile"@[3] == 'k');
    assert("dockerfile"@[4] == 'e');
    assert("dockerfile"@[5] == 'r');
    assert("dockerfile"@[6] == 'f');
    assert("dockerfile"@[7] == 'i');
    assert("dockerfile"@[8] == 'l');
    assert("dockerfile"@[9] == 'e');
    reveal_strlit("makefile");
    assert("makefile"@.len() == 8);
    assert("makefile"@[0] == 'm');
    assert("makefile"@[1] == 'a');
    assert("makefile"@[2] == 'k');
    assert("makefile"@[3] == 'e');
    assert("makefile"@[4] == 'f');
    assert("makefile"@[5] == 'i');
    assert("makefile"@[6] == 'l');
    assert("makefile"@[7] == 'e');
    reveal_strlit("cmake");
    assert("cmake"@.len() == 5);
    assert("cmake"@[0] == 'c');
    assert("cmake"@[1] == 'm');
    assert("cmake"@[2] == 'a');
    assert("cmake"@[3] == 'k');
    assert("cmake"@[4] == 'e');
    reveal_strlit("pdf");
    assert("pdf"@.len() == 3);
    assert("pdf"@[0] == 'p');
    assert("pdf"@[1] == 'd');
    assert("pdf"@[2] == 'f');
    reveal_strlit("docx");
    assert("docx"@.len() == 4);
    assert("docx"@[0] == 'd');
    assert("docx"@[1] == 'o');
    assert("docx"@[2] == 'c');
    assert("docx"@[3] == 'x');
    reveal_strlit("pptx");
    assert("pptx"@.len() == 4);
    assert("pptx"@[0] == 'p');
    assert("pptx"@[1] == 'p');
    assert("pptx"@[2] == 't');
    assert("pptx"@[3] == 'x');
    reveal_strlit("xlsx");
    assert("xlsx"@.len() == 4);
    assert("xlsx"@[0] == 'x');
    assert("xlsx"@[1] == 'l');
    assert("xlsx"@[2] == 's');
    assert("xlsx"@[3] == 'x');
    reveal_strlit("xls");
    assert("xls"@.len() == 3);
    assert("xls"@[0] == 'x');
    assert("xls"@[1] == 'l');
    assert("xls"@[2] == 's');
    reveal_strlit("xlsm");
    assert("xlsm"@.len() == 4);
    assert("xlsm"@[0] == 'x');
    assert("xlsm"@[1] == 'l');
    assert("xlsm"@[2] == 's');
    assert("xlsm"@[3] == 'm');
    reveal_strlit("ods");
    assert("ods"@.len() == 3);
    assert("ods"@[0] == 'o');
    assert("ods"@[1] == 'd');
    assert("ods"@[2] == 's');
    assert(plain_extensions().len() == 64);
    assert forall|i: int| 0 <= i < plain_extensions().len() implies plain_extensions()[i] != e by {
        if i == 0 {
            assert(plain_extensions()[0] == "txt"@);
        } else if i == 1 {
            assert(plain_extensions()[1] == "md"@);
        } else if i == 2 {
            assert(plain_extensions()[2] == "markdown"@);
        } else if i == 3 {
            assert(plain_extensions()[3] == "rst"@);
        } else if i == 4 {
            assert(plain_extensions()[4] == "log"@);
        } else if i == 5 {
            assert(plain_extensions()[5] == "ini"@);
        } else if i == 6 {
            assert(plain_extensions()[6] == "cfg"@);
        } else if i == 7 {
            assert(plain_extensions()[7] == "conf"@);
        } else if i == 8 {
            assert(plain_extensions()[8] == "properties"@);
        } else if i == 9 {
            assert(plain_extensions()[9] == "csv"@);
        } else if i == 10 {
            assert(plain_extensions()[10] == "tsv"@);
        } else if i == 11 {
            assert(plain_extensions()[11] == "json"@);
        } else if i == 12 {
            assert(plain_extensions()[12] == "yaml"@);
        } else if i == 13 {
            assert(plain_extensions()[13] == "yml"@);
        } else if i == 14 {
            assert(plain_extensions()[14] == "toml"@);
        } else if i == 15 {
            assert(plain_extensions()[15] == "xml"@);
        } else if i == 16 {
            assert(plain_extensions()[16] == "html"@);
        } else if i == 17 {
            assert(plain_extensions()[17] == "htm"@);
        } else if i == 18 {
            assert(plain_extensions()[18] == "css"@);
        } else if i == 19 {
            assert(plain_extensions()[19] == "js"@);
        } else if i == 20 {
            assert(plain_extensions()[20] == "ts"@);
        } else if i == 21 {
            assert(plain_extensions()[21] == "jsx"@);
        } else if i == 22 {
            assert(plain_extensions()[22] == "tsx"@);
        } else if i == 23 {
            assert(plain_extensions()[23] == "mjs"@);
        } else if i == 24 {
            assert(plain_extensions()[24] == "cjs"@);
        } else if i == 25 {
            assert(plain_extensions()[25] == "rs"@);
        } else if i == 26 {
            assert(plain_extensions()[26] == "go"@);
        } else if i == 27 {
            assert(plain_extensions()[27] == "py"@);
        } else if i == 28 {
            assert(plain_extensions()[28] == "rb"@);
        } else if i == 29 {
            assert(plain_extensions()[29] == "pl"@);
        } else if i == 30 {
            assert(plain_extensions()[30] == "lua"@);
        } else if i == 31 {
            assert(plain_extensions()[31] == "java"@);
        } else if i == 32 {
            assert(plain_extensions()[32] == "kt"@);
        } else if i == 33 {
            assert(plain_extensions()[33] == "c"@);
        } else if i == 34 {
            assert(plain_extensions()[34] == "h"@);
        } else if i == 35 {
            assert(plain_extensions()[35] == "cpp"@);
        } else if i == 36 {
            assert(plain_extensions()[36] == "cc"@);
        } else if i == 37 {
            assert(plain_extensions()[37] == "cxx"@);
        } else if i == 38 {
            assert(plain_extensions()[38] == "hpp"@);
        } else if i == 39 {
            assert(plain_extensions()[39] == "hh"@);
        } else if i == 40 {
            assert(plain_extensions()[40] == "hxx"@);
        } else if i == 41 {
            assert(plain_extensions()[41] == "cs"@);
        } else if i == 42 {
            assert(plain_extensions()[42] == "swift"@);
        } else if i == 43 {
            assert(plain_extensions()[43] == "scala"@);
        } else if i == 44 {
            assert(plain_extensions()[44] == "clj"@);
        } else if i == 45 {
            assert(plain_extensions()[45] == "ex"@);
        } else if i == 46 {
            assert(plain_extensions()[46] == "exs"@);
        } else if i == 47 {
            assert(plain_extensions()[47] == "erl"@);
        } else if i == 48 {
            assert(plain_extensions()[48] == "hs"@);
        } else if i == 49 {
            assert(plain_extensions()[49] == "ml"@);
        } else if i == 50 {
            assert(plain_extensions()[50] == "fs"@);
        } else if i == 51 {
            assert(plain_extensions()[51] == "sh"@);
        } else if i == 52 {
            assert(plain_extensions()[52] == "bash"@);
        } else if i == 53 {
            assert(plain_extensions()[53] == "zsh"@);
        } else if i == 54 {
            assert(plain_extensions()[54] == "fish"@);
        } else if i == 55 {
            assert(plain_extensions()[55] == "ps1"@);
        } else if i == 56 {
            assert(plain_extensions()[56] == "bat"@);
        } else if i == 57 {
            assert(plain_extensions()[57] == "cmd"@);
        } else if i == 58 {
            assert(plain_extensions()[58] == "sql"@);
        } else if i == 59 {
            assert(plain_extensions()[59] == "graphql"@);
        } else if i == 60 {
            assert(plain_extensions()[60] == "proto"@);
        } else if i == 61 {
            assert(plain_extensions()[61] == "dockerfile"@);
        } else if i == 62 {
            assert(plain_extensions()[62] == "makefile"@);
        } else if i == 63 {
            assert(plain_extensions()[63] == "cmake"@);
        }
    }
}

/// PDF, Word, PowerPoint and spreadsheet files are chosen by extension, in
/// any ASCII case: `pdf`, `docx` and `pptx` name their own extractors, and
/// `xlsx`, `xls`, `xlsm` and `ods` name the spreadsheet extractor.
pub proof fn law_document_extractors(ext: Seq<char>)
    ensures
        lower(ext) == "pdf"@ ==> spec_extractor(lower(ext)) == Some(Extractor::Pdf),
        lower(ext) == "docx"@ ==> spec_extractor(lower(ext)) == Some(Extractor::Docx),
        lower(ext) == "pptx"@ ==> spec_extractor(lower(ext)) == Some(Extractor::Pptx),
        lower(ext) == "xlsx"@ ==> spec_extractor(lower(ext)) == Some(Extractor::Spreadsheet),
        lower(ext) == "xls"@ ==> spec_extractor(lower(ext)) == Some(Extractor::Spreadsheet),
        lower(ext) == "xlsm"@ ==> spec_extractor(lower(ext)) == Some(Extractor::Spreadsheet),
        lower(ext) == "ods"@ ==> spec_extractor(lower(ext)) == Some(Extractor::Spreadsheet),
{
    reveal_strlit("pdf");
    assert("pdf"@.len() == 3);
    assert("pdf"@[0] == 'p');
    assert("pdf"@[1] == 'd');
    assert("pdf"@[2] == 'f');
    reveal_strlit("docx");
    assert("docx"@.len() == 4);
    assert("docx"@[0] == 'd');
    assert("docx"@[1] == 'o');
    assert("docx"@[2] == 'c');
    assert("docx"@[3] == 'x');
    reveal_strlit("pptx");
    assert("pptx"@.len() == 4);
    assert("pptx"@[0] == 'p');
    assert("pptx"@[1] == 'p');
    assert("pptx"@[2] == 't');
    assert("pptx"@[3] == 'x');
    reveal_strlit("xlsx");
    assert("xlsx"@.len() == 4);
    assert("xlsx"@[0] == 'x');
    assert("xlsx"@[1] == 'l');
    assert("xlsx"@[2] == 's');
    assert("xlsx"@[3] == 'x');
    reveal_strlit("xls");
    assert("xls"@.len() == 3);
    assert("xls"@[0] == 'x');
    assert("xls"@[1] == 'l');
    assert("xls"@[2] == 's');
    reveal_strlit("xlsm");
    assert("xlsm"@.len() == 4);
    assert("xlsm"@[0] == 'x');
    assert("xlsm"@[1] == 'l');
    assert("xlsm"@[2] == 's');
    assert("xlsm"@[3] == 'm');
    reveal_strlit("ods");
    assert("ods"@.len() == 3);
    assert("ods"@[0] == 'o');
    assert("ods"@[1] == 'd');
    assert("ods"@[2] == 's');
    if lower(ext) == "pdf"@ {
        lemma_not_plain("pdf"@);
    }
    if lower(ext) == "docx"@ {
        lemma_not_plain("docx"@);
    }
    if lower(ext) == "pptx"@ {
        lemma_not_plain("pptx"@);
    }
    if lower(ext) == "xlsx"@ {
        lemma_not_plain("xlsx"@);
    }
    if lower(ext) == "xls"@ {
        lemma_not_plain("xls"@);
    }
    if lower(ext) == "xlsm"@ {
        lemma_not_plain("xlsm"@);
    }
    if lower(ext) == "ods"@ {
        lemma_not_plain("ods"@);
    }
}

/// The plain-text family (text, markup, configuration, data and source
/// files) is read as plain text, by extension in any ASCII case.
#[verifier::rlimit(50)]
pub proof fn law_plain_extractors(ext: Seq<char>)
    ensures
        lower(ext) == "txt"@ ==> spec_extractor(lower(ext)) == Some(Extractor::Plain),
        lower(ext) == "md"@ ==> spec_extractor(lower(ext)) == Some(Extractor::Plain),
        lower(ext) == "markdown"@ ==> spec_extractor(lower(ext)) == Some(Extractor::Plain),
        lower(ext) == "rst"@ ==> spec_extractor(lower(ext)) == Some(Extractor::Plain),
        lower(ext) == "log"@ ==> spec_extractor(lower(ext)) == Some(Extractor::Plain),
        lower(ext) == "ini"@ ==> spec_extractor(lower(ext)) == Some(Extractor::Plain),
        lower(ext) == "cfg"@ ==> spec_extractor(lower(ext)) == Some(Extractor::Plain),
        lower(ext) == "conf"@ ==> spec_extractor(lower(ext)) == Some(Extractor::Plain),
        lower(ext) == "properties"@ ==> spec_extractor(lower(ext)) == Some(Extractor::Plain),
        lower(ext) == "csv"@ ==> spec_extractor(lower(ext)) == Some(Extractor::Plain),
        lower(ext) == "tsv"@ ==> spec_extractor(lower(ext)) == Some(Extractor::Plain),
        lower(ext) == "json"@ ==> spec_extractor(lower(ext)) == Some(Extractor::Plain),
        lower(ext) == "yaml"@ ==> spec_extractor(lower(ext)) == Some(Extractor::Plain),
        lower(ext) == "yml"@ ==> spec_extractor(lower(ext)) == Some(Extractor::Plain),
        lower(ext) == "toml"@ ==> spec_extractor(lower(ext)) == Some(Extractor::Plain),
        lower(ext) == "xml"@ ==> spec_extractor(lower(ext)) == Some(Extractor::Plain),
        lower(ext) == "html"@ ==> spec_extractor(lower(ext)) == Some(Extractor::Plain),
        lower(ext) == "htm"@ ==> spec_extractor(lower(ext)) == Some(Extractor::Plain),
        lower(ext) == "css"@ ==> spec_extractor(lower(ext)) == Some(Extractor::Plain),
        lower(ext) == "js"@ ==> spec_extractor(lower(ext)) == Some(Extractor::Plain),
        lower(ext) == "ts"@ ==> spec_extractor(lower(ext)) == Some(Extractor::Plain),
        lower(ext) == "jsx"@ ==> spec_extractor(lower(ext)) == Some(Extractor::Plain),
        lower(ext) == "tsx"@ ==> spec_extractor(lower(ext)) == Some(Extractor::Plain),
        lower(ext) == "mjs"@ ==> spec_extractor(lower(ext)) == Some(Extractor::Plain),
        lower(ext) == "cjs"@ ==> spec_extractor(lower(ext)) == Some(Extractor::Plain),
        lower(ext) == "rs"@ ==> spec_extractor(lower(ext)) == Some(Extractor::Plain),
        lower(ext) == "go"@ ==> spec_extractor(lower(ext)) == Some(Extractor::Plain),
        lower(ext) == "py"@ ==> spec_extractor(lower(ext)) == Some(Extractor::Plain),
        lower(ext) == "rb"@ ==> spec_extractor(lower(ext)) == Some(Extractor::Plain),
        lower(ext) == "pl"@ ==> spec_extractor(lower(ext)) == Some(Extractor::Plain),
        lower(ext) == "lua"@ ==> spec_extractor(lower(ext)) == Some(Extractor::Plain),
        lower(ext) == "java"@ ==> spec_extractor(lower(ext)) == Some(Extractor::Plain),
        lower(ext) == "kt"@ ==> spec_extractor(lower(ext)) == Some(Extractor::Plain),
        lower(ext) == "c"@ ==> spec_extractor(lower(ext)) == Some(Extractor::Plain),
        lower(ext) == "h"@ ==> spec_extractor(lower(ext)) == Some(Extractor::Plain),
        lower(ext) == "cpp"@ ==> spec_extractor(lower(ext)) == Some(Extractor::Plain),
        lower(ext) == "cc"@ ==> spec_extractor(lower(ext)) == Some(Extractor::Plain),
        lower(ext) == "cxx"@ ==> spec_extractor(lower(ext)) == Some(Extractor::Plain),
        lower(ext) == "hpp"@ ==> spec_extractor(lower(ext)) == Some(Extractor::Plain),
        lower(ext) == "hh"@ ==> spec_extractor(lower(ext)) == Some(Extractor::Plain),
        lower(ext) == "hxx"@ ==> spec_extractor(lower(ext)) == Some(Extractor::Plain),
        lower(ext) == "cs"@ ==> spec_extractor(lower(ext)) == Some(Extractor::Plain),
        lower(ext) == "swift"@ ==> spec_extractor(lower(ext)) == Some(Extractor::Plain),
        lower(ext) == "scala"@ ==> spec_extractor(lower(ext)) == Some(Extractor::Plain),
        lower(ext) == "clj"@ ==> spec_extractor(lower(ext)) == Some(Extractor::Plain),
        lower(ext) == "ex"@ ==> spec_extractor(lower(ext)) == Some(Extractor::Plain),
        lower(ext) == "exs"@ ==> spec_extractor(lower(ext)) == Some(Extractor::Plain),
        lower(ext) == "erl"@ ==> spec_extractor(lower(ext)) == Some(Extractor::Plain),
        lower(ext) == "hs"@ ==> spec_extractor(lower(ext)) == Some(Extractor::Plain),
        lower(ext) == "ml"@ ==> spec_extractor(lower(ext)) == Some(Extractor::Plain),
        lower(ext) == "fs"@ ==> spec_extractor(lower(ext)) == Some(Extractor::Plain),
        lower(ext) == "sh"@ ==> spec_extractor(lower(ext)) == Some(Extractor::Plain),
        lower(ext) == "bash"@ ==> spec_extractor(lower(ext)) == Some(Extractor::Plain),
        lower(ext) == "zsh"@ ==> spec_extractor(lower(ext)) == Some(Extractor::Plain),
        lower(ext) == "fish"@ ==> spec_extractor(lower(ext)) == Some(Extractor::Plain),
        lower(ext) == "ps1"@ ==> spec_extractor(lower(ext)) == Some(Extractor::Plain),
        lower(ext) == "bat"@ ==> spec_extractor(lower(ext)) == Some(Extractor::Plain),
        lower(ext) == "cmd"@ ==> spec_extractor(lower(ext)) == Some(Extractor::Plain),
        lower(ext) == "sql"@ ==> spec_extractor(lower(ext)) == Some(Extractor::Plain),
        lower(ext) == "graphql"@ ==> spec_extractor(lower(ext)) == Some(Extractor::Plain),
        lower(ext) == "proto"@ ==> spec_extractor(lower(ext)) == Some(Extractor::Plain),
        lower(ext) == "dockerfile"@ ==> spec_extractor(lower(ext)) == Some(Extractor::Plain),
        lower(ext) == "makefile"@ ==> spec_extractor(lower(ext)) == Some(Extractor::Plain),
        lower(ext) == "cmake"@ ==> spec_extractor(lower(ext)) == Some(Extractor::Plain),
{
    reveal_strlit("txt");
    reveal_strlit("md");
    reveal_strlit("markdown");
    reveal_strlit("rst");
    reveal_strlit("log");
    reveal_strlit("ini");
    reveal_strlit("cfg");
    reveal_strlit("conf");
    reveal_strlit("properties");
    reveal_strlit("csv");
    reveal_strlit("tsv");
    reveal_strlit("json");
    reveal_strlit("yaml");
    reveal_strlit("yml");
    reveal_strlit("toml");
    reveal_strlit("xml");
    reveal_strlit("html");
    reveal_strlit("htm");
    reveal_strlit("css");
    reveal_strlit("js");
    reveal_strlit("ts");
    reveal_strlit("jsx");
    reveal_strlit("tsx");
    reveal_strlit("mjs");
    reveal_strlit("cjs");
    reveal_strlit("rs");
    reveal_strlit("go");
    reveal_strlit("py");
    reveal_strlit("rb");
    reveal_strlit("pl");
    reveal_strlit("lua");
    reveal_strlit("java");
    reveal_strlit("kt");
    reveal_strlit("c");
    reveal_strlit("h");
    reveal_strlit("cpp");
    reveal_strlit("cc");
    reveal_strlit("cxx");
    reveal_strlit("hpp");
    reveal_strlit("hh");
    reveal_strlit("hxx");
    reveal_strlit("cs");
    reveal_strlit("swift");
    reveal_strlit("scala");
    reveal_strlit("clj");
    reveal_strlit("ex");
    reveal_strlit("exs");
    reveal_strlit("erl");
    reveal_strlit("hs");
    reveal_strlit("ml");
    reveal_strlit("fs");
    reveal_strlit("sh");
    reveal_strlit("bash");
    reveal_strlit("zsh");
    reveal_strlit("fish");
    reveal_strlit("ps1");
    reveal_strlit("bat");
    reveal_strlit("cmd");
    reveal_strlit("sql");
    reveal_strlit("graphql");
    reveal_strlit("proto");
    reveal_strlit("dockerfile");
    reveal_strlit("makefile");
    reveal_strlit("cmake");
    reveal_strlit("pdf");
    reveal_strlit("docx");
    reveal_strlit("pptx");
    reveal_strlit("xlsx");
    reveal_strlit("xls");
    reveal_strlit("xlsm");
    reveal_strlit("ods");
    assert(plain_extensions()[0] == "txt"@);
    assert(plain_extensions()[1] == "md"@);
    assert(plain_extensions()[2] == "markdown"@);
    assert(plain_extensions()[3] == "rst"@);
    assert(plain_extensions()[4] == "log"@);
    assert(plain_extensions()[5] == "ini"@);
    assert(plain_extensions()[6] == "cfg"@);
    assert(plain_extensions()[7] == "conf"@);
    assert(plain_extensions()[8] == "properties"@);
    assert(plain_extensions()[9] == "csv"@);
    assert(plain_extensions()[10] == "tsv"@);
    assert(plain_extensions()[11] == "json"@);
    assert(plain_extensions()[12] == "yaml"@);
    assert(plain_extensions()[13] == "yml"@);
    assert(plain_extensions()[14] == "toml"@);
    assert(plain_extensions()[15] == "xml"@);
    assert(plain_extensions()[16] == "html"@);
    assert(plain_extensions()[17] == "htm"@);
    assert(plain_extensions()[18] == "css"@);
    assert(plain_extensions()[19] == "js"@);
    assert(plain_extensions()[20] == "ts"@);
    assert(plain_extensions()[21] == "jsx"@);
    assert(plain_extensions()[22] == "tsx"@);
    assert(plain_extensions()[23] == "mjs"@);
    assert(plain_extensions()[24] == "cjs"@);
    assert(plain_extensions()[25] == "rs"@);
    assert(plain_extensions()[26] == "go"@);
    assert(plain_extensions()[27] == "py"@);
    assert(plain_extensions()[28] == "rb"@);
    assert(plain_extensions()[29] == "pl"@);
    assert(plain_extensions()[30] == "lua"@);
    assert(plain_extensions()[31] == "java"@);
    assert(plain_extensions()[32] == "kt"@);
    assert(plain_extensions()[33] == "c"@);
    assert(plain_extensions()[34] == "h"@);
    assert(plain_extensions()[35] == "cpp"@);
    assert(plain_extensions()[36] == "cc"@);
    assert(plain_extensions()[37] == "cxx"@);
    assert(plain_extensions()[38] == "hpp"@);
    assert(plain_extensions()[39] == "hh"@);
    assert(plain_extensions()[40] == "hxx"@);
    assert(plain_extensions()[41] == "cs"@);
    assert(plain_extensions()[42] == "swift"@);
    assert(plain_extensions()[43] == "scala"@);
    assert(plain_extensions()[44] == "clj"@);
    assert(plain_extensions()[45] == "ex"@);
    assert(plain_extensions()[46] == "exs"@);
    assert(plain_extensions()[47] == "erl"@);
    assert(plain_extensions()[48] == "hs"@);
    assert(plain_extensions()[49] == "ml"@);
    assert(plain_extensions()[50] == "fs"@);
    assert(plain_extensions()[51] == "sh"@);
    assert(plain_extensions()[52] == "bash"@);
    assert(plain_extensions()[53] == "zsh"@);
    assert(plain_extensions()[54] == "fish"@);
    assert(plain_extensions()[55] == "ps1"@);
    assert(plain_extensions()[56] == "bat"@);
    assert(plain_extensions()[57] == "cmd"@);
    assert(plain_extensions()[58] == "sql"@);
    assert(plain_extensions()[59] == "graphql"@);
    assert(plain_extensions()[60] == "proto"@);
    assert(plain_extensions()[61] == "dockerfile"@);
    assert(plain_extensions()[62] == "makefile"@);
    assert(plain_extensions()[63] == "cmake"@);
}

} // verus!
