//! Text runs of an OOXML part (`w:t` in DOCX, `a:t` in PPTX).
//!
//! The XML is tokenised by `quick_xml`; the runs are collected from its
//! events by [`Runs`], a state machine over [`XmlEvent`]: the text inside
//! each element named by the tag is gathered (references resolved), and
//! kept when it is more than whitespace.

use vstd::prelude::*;
use crate::extract::{is_digit, parse_digits};
use crate::text::{blank, chars_of, is_blank, owned, push_char, push_str, string_of, sub_chars};

verus! {

/// An event of the XML tokenizer, as the collector needs it.
#[derive(Debug, Clone, PartialEq, Eq)]
pub enum XmlEvent {
    /// A start tag, by its qualified name.
    Start(Vec<u8>),
    /// An end tag, by its qualified name.
    End(Vec<u8>),
    /// Character data, without its references.
    Text(String),
    /// A reference `&name;`, by the text between `&` and `;`.
    Ref(String),
    /// The end of the document.
    Eof,
    /// A malformed document.
    Error,
    /// Anything else (empty elements, comments, declarations...).
    Other,
}

#[verifier::external_type_specification]
#[verifier::external_body]
#[verifier::reject_recursive_types(R)]
pub struct ExXmlReader<R>(quick_xml::Reader<R>);

/// The `i`-th event (from 0) that a `quick_xml` reader made over `bytes`
/// yields, each kind converted to its [`XmlEvent`].
pub uninterp spec fn xml_event_at(bytes: Seq<u8>, i: nat) -> XmlEvent;

/// A tokenizer over some bytes, with how many events it has yielded.
pub struct XmlCursor<'a> {
    reader: quick_xml::Reader<&'a [u8]>,
    bytes: Ghost<Seq<u8>>,
    read: Ghost<nat>,
}

impl<'a> View for XmlCursor<'a> {
    /// The bytes read and the number of events yielded so far.
    type V = (Seq<u8>, nat);

    closed spec fn view(&self) -> (Seq<u8>, nat) {
        (self.bytes@, self.read@)
    }
}

/// `quick_xml::Reader::from_reader` over `bytes`.
#[verifier::external_body]
fn xml_reader<'a>(bytes: &'a [u8]) -> quick_xml::Reader<&'a [u8]> {
    quick_xml::Reader::from_reader(bytes)
}

impl<'a> XmlCursor<'a> {
    /// A tokenizer over `bytes` that has yielded nothing.
    pub fn new(bytes: &'a [u8]) -> (c: XmlCursor<'a>)
        ensures
            c@ == (bytes@, 0nat),
    {
        XmlCursor { reader: xml_reader(bytes), bytes: Ghost(bytes@), read: Ghost(0nat) }
    }
}

/// The next event of the tokenizer (`quick_xml::Reader::read_event_into`),
/// each kind converted to its [`XmlEvent`]: the event after the ones it
/// has yielded, which depends on the bytes alone.
#[verifier::external_body]
fn next_event(cur: &mut XmlCursor) -> (ev: XmlEvent)
    ensures
        ev == xml_event_at(old(cur)@.0, old(cur)@.1),
        final(cur)@ == (old(cur)@.0, old(cur)@.1 + 1),
{
    let mut buf: Vec<u8> = Vec::new();
    match cur.reader.read_event_into(&mut buf) {
        Ok(quick_xml::events::Event::Start(e)) => XmlEvent::Start(e.name().as_ref().as_bytes().to_vec()),
        Ok(quick_xml::events::Event::End(e)) => XmlEvent::End(e.name().as_ref().as_bytes().to_vec()),
        Ok(quick_xml::events::Event::Text(t)) => XmlEvent::Text(t.into_inner().into_owned()),
        Ok(quick_xml::events::Event::GeneralRef(r)) => XmlEvent::Ref(r.into_inner().into_owned()),
        Ok(quick_xml::events::Event::Eof) => XmlEvent::Eof,
        Ok(_) => XmlEvent::Other,
        Err(_) => XmlEvent::Error,
    }
}

/// The text of a predefined XML entity.
pub open spec fn predefined_entity(name: Seq<char>) -> Option<Seq<char>> {
    if name == "lt"@ {
        Some("<"@)
    } else if name == "gt"@ {
        Some(">"@)
    } else if name == "amp"@ {
        Some("&"@)
    } else if name == "apos"@ {
        Some("'"@)
    } else if name == "quot"@ {
        Some("\""@)
    } else {
        None
    }
}

/// `quick_xml::escape::resolve_predefined_entity`: the five entities that
/// XML predefines (the crate's `escape-html` feature, which adds the HTML
/// ones, is off).
#[verifier::external_body]
fn resolve_entity(name: &str) -> (r: Option<&'static str>)
    ensures
        match r {
            Some(t) => predefined_entity(name@) == Some(t@),
            None => predefined_entity(name@) is None,
        },
{
    quick_xml::escape::resolve_predefined_entity(name)
}

/// The value of the hexadecimal digit `c`.
pub open spec fn hex_digit_value(c: char) -> int {
    if '0' <= c <= '9' {
        c as int - 48
    } else if 'a' <= c <= 'f' {
        c as int - 87
    } else {
        c as int - 55
    }
}

pub open spec fn is_hex_digit(c: char) -> bool {
    ('0' <= c <= '9') || ('a' <= c <= 'f') || ('A' <= c <= 'F')
}

/// The number that hexadecimal digits `d` write.
pub open spec fn hex_value(d: Seq<char>) -> int
    decreases d.len(),
{
    if d.len() == 0 {
        0
    } else {
        hex_value(d.drop_last()) * 16 + hex_digit_value(d.last())
    }
}

/// The code point of a character reference's number: `x` then hexadecimal
/// digits, or decimal digits; no sign; it must fit in 32 bits.
pub open spec fn char_ref_code(num: Seq<char>) -> Option<int> {
    if num.len() > 0 && num[0] == 'x' {
        let h = num.skip(1);
        if h.len() > 0 && (forall|i: int| 0 <= i < h.len() ==> is_hex_digit(#[trigger] h[i])) && hex_value(h)
            <= u32::MAX {
            Some(hex_value(h))
        } else {
            None
        }
    } else {
        match parse_digits(num) {
            Some(v) => if v <= u32::MAX {
                Some(v)
            } else {
                None
            },
            None => None,
        }
    }
}

/// A code point that is a character: not zero, not a surrogate, at most
/// `0x10FFFF`.
pub open spec fn valid_char_code(v: int) -> bool {
    0 < v && !(0xD800 <= v <= 0xDFFF) && v <= 0x10FFFF
}

/// What reference `&name;` stands for inside text: a character reference
/// `#...` resolves to its character, a predefined entity to its text;
/// anything else does not resolve.
pub open spec fn resolve_ref(name: Seq<char>) -> Option<Seq<char>> {
    if name.len() > 0 && name[0] == '#' {
        match char_ref_code(name.skip(1)) {
            Some(v) => if valid_char_code(v) {
                Some(seq![v as char])
            } else {
                None
            },
            None => None,
        }
    } else {
        predefined_entity(name)
    }
}

/// The state of the run collector.
pub struct RunsView {
    pub in_run: bool,
    pub buf: Seq<char>,
    pub runs: Seq<Seq<char>>,
    /// A reference inside a run did not resolve.
    pub failed: bool,
    /// The document ended (or broke off).
    pub done: bool,
}

/// One event's effect on the collector, with runs named `tag`.
pub open spec fn runs_step(s: RunsView, ev: XmlEvent, tag: Seq<u8>) -> RunsView {
    if s.done || s.failed {
        s
    } else {
        match ev {
            XmlEvent::Start(n) => if n@ == tag {
                RunsView { in_run: true, buf: Seq::empty(), ..s }
            } else {
                s
            },
            XmlEvent::End(n) => if s.in_run && n@ == tag {
                RunsView {
                    in_run: false,
                    buf: Seq::empty(),
                    runs: if is_blank(s.buf) {
                        s.runs
                    } else {
                        s.runs.push(s.buf)
                    },
                    ..s
                }
            } else {
                s
            },
            XmlEvent::Text(t) => if s.in_run {
                RunsView { buf: s.buf + t@, ..s }
            } else {
                s
            },
            XmlEvent::Ref(r) => if s.in_run {
                match resolve_ref(r@) {
                    Some(x) => RunsView { buf: s.buf + x, ..s },
                    None => RunsView { failed: true, ..s },
                }
            } else {
                s
            },
            XmlEvent::Eof => RunsView { done: true, ..s },
            XmlEvent::Error => RunsView { done: true, ..s },
            XmlEvent::Other => s,
        }
    }
}

/// What the collector gives: nothing when a reference failed or no run had
/// text, else the runs with text, in document order.
pub open spec fn runs_result(s: RunsView) -> Option<Seq<Seq<char>>> {
    if s.failed || s.runs.len() == 0 {
        None
    } else {
        Some(s.runs)
    }
}

/// Collects the text runs of elements named by a tag from XML events.
pub struct Runs {
    in_run: bool,
    buf: String,
    runs: Vec<String>,
    failed: bool,
    done: bool,
}

impl View for Runs {
    type V = RunsView;

    closed spec fn view(&self) -> RunsView {
        RunsView {
            in_run: self.in_run,
            buf: self.buf@,
            runs: crate::keyed::views(self.runs@),
            failed: self.failed,
            done: self.done,
        }
    }
}

fn bytes_eq(a: &[u8], b: &[u8]) -> (r: bool)
    ensures
        r == (a@ == b@),
{
    if a.len() != b.len() {
        return false;
    }
    let mut i: usize = 0;
    while i < a.len()
        invariant
            i <= a@.len(),
            a@.len() == b@.len(),
            forall|k: int| 0 <= k < i ==> a@[k] == b@[k],
        decreases a@.len() - i,
    {
        if a[i] != b[i] {
            return false;
        }
        i += 1;
    }
    assert(a@ =~= b@);
    true
}

fn parse_hex(h: &Vec<char>) -> (r: Option<u32>)
    ensures
        match r {
            Some(v) => h@.len() > 0 && (forall|i: int| 0 <= i < h@.len() ==> is_hex_digit(#[trigger] h@[i]))
                && hex_value(h@) == v,
            None => !(h@.len() > 0 && (forall|i: int| 0 <= i < h@.len() ==> is_hex_digit(#[trigger] h@[i]))
                && hex_value(h@) <= u32::MAX),
        },
{
    if h.len() == 0 {
        return None;
    }
    let mut v: u64 = 0;
    let mut i: usize = 0;
    while i < h.len()
        invariant
            i <= h@.len(),
            h@.len() > 0,
            forall|k: int| 0 <= k < i ==> is_hex_digit(#[trigger] h@[k]),
            v == hex_value(h@.take(i as int)),
            v <= u32::MAX,
        decreases h@.len() - i,
    {
        let c = h[i];
        assert(h@.take(i + 1).drop_last() =~= h@.take(i as int));
        let d: u64 = if '0' <= c && c <= '9' {
            (c as u64) - 48
        } else if 'a' <= c && c <= 'f' {
            (c as u64) - 87
        } else if 'A' <= c && c <= 'F' {
            (c as u64) - 55
        } else {
            assert(!is_hex_digit(h@[i as int]));
            return None;
        };
        let n = v * 16 + d;
        if n > 4294967295u64 {
            proof {
                if forall|k: int| 0 <= k < h@.len() ==> is_hex_digit(#[trigger] h@[k]) {
                    lemma_hex_value_prefix(h@, i + 1);
                }
            }
            return None;
        }
        v = n;
        i += 1;
    }
    assert(h@.take(h@.len() as int) =~= h@);
    Some(v as u32)
}

proof fn lemma_hex_value_prefix(d: Seq<char>, j: int)
    requires
        0 <= j <= d.len(),
        forall|i: int| 0 <= i < d.len() ==> is_hex_digit(#[trigger] d[i]),
    ensures
        0 <= hex_value(d.take(j)) <= hex_value(d),
    decreases d.len() - j,
{
    if j == d.len() {
        assert(d.take(j) =~= d);
        lemma_hex_value_nonneg(d);
    } else {
        lemma_hex_value_prefix(d, j + 1);
        assert(d.take(j + 1).drop_last() =~= d.take(j));
        assert(is_hex_digit(d[j]));
        lemma_hex_value_nonneg(d.take(j));
    }
}

proof fn lemma_hex_value_nonneg(d: Seq<char>)
    requires
        forall|i: int| 0 <= i < d.len() ==> is_hex_digit(#[trigger] d[i]),
    ensures
        0 <= hex_value(d),
    decreases d.len(),
{
    if d.len() > 0 {
        let p = d.drop_last();
        assert forall|i: int| 0 <= i < p.len() implies is_hex_digit(#[trigger] p[i]) by {
            assert(p[i] == d[i]);
        }
        lemma_hex_value_nonneg(p);
        assert(is_hex_digit(d[d.len() - 1]));
    }
}

/// What reference `&name;` stands for (see [`resolve_ref`]).
pub fn resolve_reference(name: &str) -> (r: Option<String>)
    ensures
        match r {
            Some(t) => resolve_ref(name@) == Some(t@),
            None => resolve_ref(name@) is None,
        },
{
    let v = chars_of(name);
    if v.len() > 0 && v[0] == '#' {
        let num = sub_chars(v.as_slice(), 1, v.len());
        assert(num@ =~= name@.skip(1));
        let code: Option<u32> = if num.len() > 0 && num[0] == 'x' {
            let h = sub_chars(num.as_slice(), 1, num.len());
            assert(h@ =~= num@.skip(1));
            parse_hex(&h)
        } else {
            let ns = string_of(num.as_slice());
            match crate::extract::parse_usize(ns.as_str()) {
                Some(x) => {
                    if num.len() > 0 && num[0] == '+' {
                        None
                    } else if x <= 4294967295usize {
                        Some(x as u32)
                    } else {
                        None
                    }
                },
                None => None,
            }
        };
        proof {
            if !(num@.len() > 0 && num@[0] == 'x') {
                if num@.len() > 0 && num@[0] == '+' {
                    assert(!is_digit(num@[0]));
                }
            }
        }
        match code {
            Some(c) => {
                if c == 0 || (0xD800u32 <= c && c <= 0xDFFFu32) || c > 0x10FFFFu32 {
                    None
                } else {
                    let ch = char_from(c);
                    let mut out = String::new();
                    push_char(&mut out, ch);
                    assert(out@ =~= seq![(c as int) as char]);
                    Some(out)
                }
            },
            None => None,
        }
    } else {
        match resolve_entity(name) {
            Some(t) => Some(owned(t)),
            None => None,
        }
    }
}

/// The character with code point `c` (`char::from_u32`, which gives it for
/// every code point that is not a surrogate and at most `0x10FFFF`).
#[verifier::external_body]
fn char_from(c: u32) -> (ch: char)
    requires
        valid_char_code(c as int),
    ensures
        ch == (c as int) as char,
{
    char::from_u32(c).unwrap()
}

impl Runs {
    /// A collector that has seen nothing.
    pub fn new() -> (r: Runs)
        ensures
            r@ == runs_start(),
    {
        let r = Runs { in_run: false, buf: String::new(), runs: Vec::new(), failed: false, done: false };
        assert(crate::keyed::views(r.runs@) =~= Seq::<Seq<char>>::empty());
        r
    }

    /// Whether the document ended or a reference failed: no later event
    /// matters.
    pub fn finished(&self) -> (r: bool)
        ensures
            r == (self@.done || self@.failed),
    {
        self.done || self.failed
    }

    /// Feed one event, with runs named `tag`.
    pub fn step(&mut self, ev: XmlEvent, tag: &[u8])
        ensures
            final(self)@ == runs_step(old(self)@, ev, tag@),
    {
        if self.done || self.failed {
            return;
        }
        match ev {
            XmlEvent::Start(n) => {
                if bytes_eq(n.as_slice(), tag) {
                    self.in_run = true;
                    self.buf = String::new();
                }
            },
            XmlEvent::End(n) => {
                if self.in_run && bytes_eq(n.as_slice(), tag) {
                    let mut b = String::new();
                    std::mem::swap(&mut b, &mut self.buf);
                    if !blank(b.as_str()) {
                        let ghost before = self.runs@;
                        self.runs.push(b);
                        assert(crate::keyed::views(self.runs@) =~= crate::keyed::views(before).push(
                            old(self).buf@,
                        ));
                    }
                    self.in_run = false;
                }
            },
            XmlEvent::Text(t) => {
                if self.in_run {
                    push_str(&mut self.buf, t.as_str());
                }
            },
            XmlEvent::Ref(r) => {
                if self.in_run {
                    match resolve_reference(r.as_str()) {
                        Some(x) => push_str(&mut self.buf, x.as_str()),
                        None => {
                            self.failed = true;
                        },
                    }
                }
            },
            XmlEvent::Eof => {
                self.done = true;
            },
            XmlEvent::Error => {
                self.done = true;
            },
            XmlEvent::Other => {},
        }
    }

    /// The runs collected (see [`runs_result`]).
    pub fn finish(self) -> (r: Option<Vec<String>>)
        ensures
            match runs_result(self@) {
                Some(rs) => r matches Some(v) && crate::keyed::views(v@) == rs,
                None => r is None,
            },
    {
        if self.failed || self.runs.len() == 0 {
            None
        } else {
            Some(self.runs)
        }
    }
}

/// Every run the collector keeps has text beyond whitespace.
pub proof fn law_runs_have_text(s: RunsView, ev: XmlEvent, tag: Seq<u8>)
    requires
        forall|i: int| 0 <= i < s.runs.len() ==> !is_blank(#[trigger] s.runs[i]),
    ensures
        forall|i: int| 0 <= i < runs_step(s, ev, tag).runs.len() ==> !is_blank(#[trigger] runs_step(s, ev, tag).runs[i]),
{
}

/// The collector before any event.
pub open spec fn runs_start() -> RunsView {
    RunsView { in_run: false, buf: Seq::empty(), runs: Seq::empty(), failed: false, done: false }
}

/// The collector after the first `k` events of a tokenizer over `bytes`.
pub open spec fn runs_after(bytes: Seq<u8>, tag: Seq<u8>, k: nat) -> RunsView
    decreases k,
{
    if k == 0 {
        runs_start()
    } else {
        runs_step(runs_after(bytes, tag, (k - 1) as nat), xml_event_at(bytes, (k - 1) as nat), tag)
    }
}

/// Once the collector has finished, later events leave it as it is.
proof fn lemma_runs_after_settled(bytes: Seq<u8>, tag: Seq<u8>, k: nat, j: nat)
    requires
        k <= j,
        runs_after(bytes, tag, k).done || runs_after(bytes, tag, k).failed,
    ensures
        runs_after(bytes, tag, j) == runs_after(bytes, tag, k),
    decreases j - k,
{
    if j > k {
        lemma_runs_after_settled(bytes, tag, k, (j - 1) as nat);
    }
}

/// The text runs of the elements named `tag` in the XML `bytes`, in
/// document order: none when a reference inside a run does not resolve or
/// no run has text. At most one event per input byte, and the end, are
/// read (every event but the end consumes input).
pub fn parse_ooxml_text(bytes: &[u8], tag: &[u8]) -> (r: Option<Vec<String>>)
    ensures
        match runs_result(runs_after(bytes@, tag@, (bytes@.len() + 1) as nat)) {
            Some(rs) => r matches Some(v) && crate::keyed::views(v@) == rs,
            None => r is None,
        },
        r matches Some(v) ==> v@.len() > 0 && forall|i: int| 0 <= i < v@.len() ==> !is_blank(#[trigger] v@[i]@),
{
    let mut cur = XmlCursor::new(bytes);
    let mut runs = Runs::new();
    let mut n: u128 = 0;
    let limit: u128 = bytes.len() as u128;
    while n <= limit && !runs.finished()
        invariant
            forall|i: int| 0 <= i < runs@.runs.len() ==> !is_blank(#[trigger] runs@.runs[i]),
            runs@ == runs_after(bytes@, tag@, n as nat),
            cur@ == (bytes@, n as nat),
            limit == bytes@.len(),
            limit <= usize::MAX,
            n <= limit + 1,
        decreases limit + 1 - n,
    {
        let ev = next_event(&mut cur);
        proof {
            law_runs_have_text(runs@, ev, tag@);
        }
        runs.step(ev, tag);
        n += 1;
    }
    proof {
        if n <= limit {
            lemma_runs_after_settled(bytes@, tag@, n as nat, (bytes@.len() + 1) as nat);
        }
    }
    let ghost fin = runs@;
    let r = runs.finish();
    proof {
        if r is Some {
            assert forall|i: int| 0 <= i < r->0@.len() implies !is_blank(#[trigger] r->0@[i]@) by {
                assert(crate::keyed::views(r->0@)[i] == fin.runs[i]);
            }
        }
    }
    r
}

} // verus!
