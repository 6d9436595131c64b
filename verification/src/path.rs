//! Path templates: compiling them, matching concrete paths against them and
//! rendering them with captured values.
//!
//! A template is cut at every `/`. A segment of the form `<name>` captures
//! the one segment that stands at its place in a concrete path; any other
//! segment must be found there, percent-encoded or not.

use vstd::prelude::*;
use vstd::slice::{slice_subrange, slice_to_vec};
use crate::error::CsrfError;
use crate::bytes::{append_bytes, same_bytes, views};
use crate::injector::{GT, LT};

verus! {

/// The byte `/`, which separates the segments of a path.
pub const SEPARATOR: u8 = 0x2f;

/// The byte `%`, which introduces an encoded byte.
pub const PERCENT: u8 = 0x25;

/// The value of a hexadecimal digit, if `b` is one.
pub open spec fn hex_value(b: u8) -> Option<u8> {
    if 0x30 <= b && b <= 0x39 {
        Some((b - 0x30) as u8)
    } else if 0x41 <= b && b <= 0x46 {
        Some((b - 0x41 + 10) as u8)
    } else if 0x61 <= b && b <= 0x66 {
        Some((b - 0x61 + 10) as u8)
    } else {
        None
    }
}

/// `s` begins with `%` and two hexadecimal digits.
pub open spec fn starts_escape(s: Seq<u8>) -> bool {
    s.len() >= 3 && s[0] == PERCENT && hex_value(s[1]) is Some && hex_value(s[2]) is Some
}

/// `s` with every `%` that is followed by two hexadecimal digits replaced,
/// together with them, by the byte that the digits give. Any other `%`
/// stands for itself.
pub open spec fn percent_decoded(s: Seq<u8>) -> Seq<u8>
    decreases s.len(),
{
    if s.len() == 0 {
        s
    } else if starts_escape(s) {
        seq![(16 * hex_value(s[1]).unwrap() + hex_value(s[2]).unwrap()) as u8] + percent_decoded(
            s.skip(3),
        )
    } else {
        seq![s[0]] + percent_decoded(s.skip(1))
    }
}

/// The parts of `s` between separators, where `first` has already been read
/// of the first part.
pub open spec fn split_after(first: Seq<u8>, s: Seq<u8>, sep: u8) -> Seq<Seq<u8>>
    decreases s.len(),
{
    if s.len() == 0 {
        seq![first]
    } else if s[0] == sep {
        seq![first] + split_after(Seq::empty(), s.skip(1), sep)
    } else {
        split_after(first.push(s[0]), s.skip(1), sep)
    }
}

/// The parts of `s` between separators: one more than there are separators,
/// empty parts included.
pub open spec fn split(s: Seq<u8>, sep: u8) -> Seq<Seq<u8>> {
    split_after(Seq::empty(), s, sep)
}

/// The parts put together again, with a separator between each two.
pub open spec fn join(parts: Seq<Seq<u8>>, sep: u8) -> Seq<u8>
    decreases parts.len(),
{
    if parts.len() == 0 {
        Seq::empty()
    } else if parts.len() == 1 {
        parts[0]
    } else {
        join(parts.drop_last(), sep).push(sep) + parts.last()
    }
}

/// Joining a part and then more parts puts a separator after the part.
pub proof fn lemma_join_first(first: Seq<u8>, rest: Seq<Seq<u8>>, sep: u8)
    requires
        rest.len() >= 1,
    ensures
        join(seq![first] + rest, sep) == first.push(sep) + join(rest, sep),
    decreases rest.len(),
{
    let all = seq![first] + rest;
    assert(all.len() == rest.len() + 1);
    assert(all.last() == rest.last());
    assert(join(all, sep) == join(all.drop_last(), sep).push(sep) + all.last());
    if rest.len() == 1 {
        assert(all.drop_last() =~= seq![first]);
        assert(join(seq![first], sep) == first);
        assert(join(rest, sep) == rest[0]);
    } else {
        assert(all.drop_last() =~= seq![first] + rest.drop_last());
        lemma_join_first(first, rest.drop_last(), sep);
        assert(join(rest, sep) == join(rest.drop_last(), sep).push(sep) + rest.last());
        assert((first.push(sep) + join(rest.drop_last(), sep)).push(sep) + rest.last()
            =~= first.push(sep) + (join(rest.drop_last(), sep).push(sep) + rest.last()));
    }
}

/// Splitting loses nothing: the parts, joined, are the text again.
pub proof fn lemma_join_split_after(first: Seq<u8>, s: Seq<u8>, sep: u8)
    ensures
        split_after(first, s, sep).len() >= 1,
        join(split_after(first, s, sep), sep) == first + s,
    decreases s.len(),
{
    if s.len() == 0 {
        assert(first + s =~= first);
    } else if s[0] == sep {
        let rest = split_after(Seq::empty(), s.skip(1), sep);
        lemma_join_split_after(Seq::empty(), s.skip(1), sep);
        lemma_join_first(first, rest, sep);
        assert(first.push(sep) + (Seq::<u8>::empty() + s.skip(1)) =~= first + s);
    } else {
        lemma_join_split_after(first.push(s[0]), s.skip(1), sep);
        assert(first.push(s[0]) + s.skip(1) =~= first + s);
    }
}

/// Splitting a text and joining the parts gives the text back.
pub proof fn lemma_join_split(s: Seq<u8>, sep: u8)
    ensures
        join(split(s, sep), sep) == s,
{
    lemma_join_split_after(Seq::empty(), s, sep);
    assert(Seq::<u8>::empty() + s =~= s);
}

/// No part of a split text holds the separator.
pub proof fn lemma_split_parts_clean(first: Seq<u8>, s: Seq<u8>, sep: u8)
    requires
        !first.contains(sep),
    ensures
        forall|i: int|
            0 <= i < split_after(first, s, sep).len() ==> !(#[trigger] split_after(
                first,
                s,
                sep,
            )[i]).contains(sep),
    decreases s.len(),
{
    let parts = split_after(first, s, sep);
    if s.len() == 0 {
        assert(parts =~= seq![first]);
        assert forall|i: int| 0 <= i < parts.len() implies !(#[trigger] parts[i]).contains(
            sep,
        ) by {
            assert(parts[i] == first);
        }
    } else if s[0] == sep {
        let rest = split_after(Seq::empty(), s.skip(1), sep);
        assert(!Seq::<u8>::empty().contains(sep));
        lemma_split_parts_clean(Seq::empty(), s.skip(1), sep);
        assert(parts == seq![first] + rest);
        assert forall|i: int| 0 <= i < parts.len() implies !(#[trigger] parts[i]).contains(
            sep,
        ) by {
            if i > 0 {
                assert(parts[i] == rest[i - 1]);
            }
        }
    } else {
        let next = first.push(s[0]);
        assert(!next.contains(sep)) by {
            if next.contains(sep) {
                let k = choose|k: int| 0 <= k < next.len() && next[k] == sep;
                assert(k < first.len());
                assert(first[k] == sep);
                assert(first.contains(sep));
            }
        }
        lemma_split_parts_clean(next, s.skip(1), sep);
        let same = split_after(next, s.skip(1), sep);
        assert(parts == same);
        assert forall|i: int| 0 <= i < parts.len() implies !(#[trigger] parts[i]).contains(
            sep,
        ) by {
            assert(parts[i] == same[i]);
        }
    }
}

fn hex_digit(b: u8) -> (r: Option<u8>)
    ensures
        r == hex_value(b),
{
    if 0x30 <= b && b <= 0x39 {
        Some(b - 0x30)
    } else if 0x41 <= b && b <= 0x46 {
        Some(b - 0x41 + 10)
    } else if 0x61 <= b && b <= 0x66 {
        Some(b - 0x61 + 10)
    } else {
        None
    }
}

/// Decodes the percent-encoded bytes of `s`.
pub fn percent_decode(s: &[u8]) -> (out: Vec<u8>)
    ensures
        out@ == percent_decoded(s@),
{
    let mut out: Vec<u8> = Vec::new();
    let mut i: usize = 0;
    assert(s@.skip(0) =~= s@);
    while i < s.len()
        invariant
            i <= s.len(),
            percent_decoded(s@) == out@ + percent_decoded(s@.skip(i as int)),
        decreases s.len() - i,
    {
        let ghost rest = s@.skip(i as int);
        let ghost before = out@;
        let mut step: usize = 1;
        let mut byte = s[i];
        if byte == PERCENT && s.len() - i >= 3 {
            if let Some(high) = hex_digit(s[i + 1]) {
                if let Some(low) = hex_digit(s[i + 2]) {
                    byte = 16 * high + low;
                    step = 3;
                }
            }
        }
        out.push(byte);
        i += step;
        proof {
            assert(rest[0] == s@[i - step]);
            if step == 3 {
                assert(rest[1] == s@[i - 2]);
                assert(rest[2] == s@[i - 1]);
                assert(starts_escape(rest));
                assert(rest.skip(3) =~= s@.skip(i as int));
            } else {
                assert(rest.len() >= 3 ==> rest[1] == s@[i as int] && rest[2] == s@[i + 1]);
                assert(!starts_escape(rest));
                assert(rest.skip(1) =~= s@.skip(i as int));
            }
            let next = percent_decoded(s@.skip(i as int));
            assert(before + (seq![byte] + next) =~= before.push(byte) + next);
        }
    }
    assert(s@.skip(s.len() as int) =~= Seq::<u8>::empty());
    assert(out@ + Seq::<u8>::empty() =~= out@);
    out
}

/// Cuts `s` at every separator.
pub fn split_bytes(s: &[u8], sep: u8) -> (parts: Vec<Vec<u8>>)
    ensures
        views(parts@) == split(s@, sep),
{
    let mut parts: Vec<Vec<u8>> = Vec::new();
    let mut current: Vec<u8> = Vec::new();
    let mut i: usize = 0;
    assert(s@.skip(0) =~= s@);
    assert(views(parts@) =~= Seq::<Seq<u8>>::empty());
    assert(Seq::<Seq<u8>>::empty() + split(s@, sep) =~= split(s@, sep));
    while i < s.len()
        invariant
            i <= s.len(),
            split(s@, sep) == views(parts@) + split_after(current@, s@.skip(i as int), sep),
        decreases s.len() - i,
    {
        let ghost rest = s@.skip(i as int);
        let ghost done = views(parts@);
        let ghost cur = current@;
        assert(rest.skip(1) =~= s@.skip(i + 1));
        if s[i] == sep {
            parts.push(current);
            current = Vec::new();
            proof {
                assert(views(parts@) =~= done.push(cur));
                let tail = split_after(Seq::empty(), rest.skip(1), sep);
                assert(done + (seq![cur] + tail) =~= done.push(cur) + tail);
            }
        } else {
            current.push(s[i]);
        }
        i += 1;
    }
    proof {
        let done = views(parts@);
        assert(s@.skip(s.len() as int) =~= Seq::<u8>::empty());
        assert(done + seq![current@] =~= done.push(current@));
    }
    let ghost done = views(parts@);
    parts.push(current);
    assert(views(parts@) =~= done.push(current@));
    parts
}

/// The text that `rocket::http::RawStr::percent_encode_bytes` produces for
/// `value`.
pub uninterp spec fn percent_encoded(value: Seq<u8>) -> Seq<u8>;

/// Calls `rocket::http::RawStr::percent_encode_bytes`. Trusted: the result
/// is the named encoding of `value`.
#[verifier::external_body]
fn percent_encode(value: &[u8]) -> (out: Vec<u8>)
    ensures
        out@ == percent_encoded(value@),
{
    rocket::http::RawStr::percent_encode_bytes(value).as_str().as_bytes().to_vec()
}

/// One segment of a template, as a value of the model.
pub enum Part {
    /// Text that a concrete path must hold at this place.
    Literal(Seq<u8>),
    /// A name under which the segment at this place is captured.
    Capture(Seq<u8>),
}

/// One segment of a compiled template.
pub enum Segment {
    /// Text that a concrete path must hold at this place.
    Literal(Vec<u8>),
    /// A name under which the segment at this place is captured.
    Capture(Vec<u8>),
}

impl View for Segment {
    type V = Part;

    open spec fn view(&self) -> Part {
        match self {
            Segment::Literal(text) => Part::Literal(text@),
            Segment::Capture(name) => Part::Capture(name@),
        }
    }
}

/// The segment is written as a capture: `<`, a name, `>`.
pub open spec fn is_capture(segment: Seq<u8>) -> bool {
    segment.len() >= 2 && segment[0] == LT && segment[segment.len() - 1] == GT
}

/// What a segment of a template's text means.
pub open spec fn part_of(segment: Seq<u8>) -> Part {
    if is_capture(segment) {
        Part::Capture(segment.subrange(1, segment.len() - 1))
    } else {
        Part::Literal(segment)
    }
}

/// The template that `pattern` is the text of.
pub open spec fn compiled(pattern: Seq<u8>) -> Seq<Part> {
    let segments = split(pattern, SEPARATOR);
    Seq::new(segments.len(), |i: int| part_of(segments[i]))
}

/// The concrete segments stand where the template wants them: as many as
/// the template has, and at each literal its text, both read after percent
/// decoding.
pub open spec fn fits(parts: Seq<Part>, segments: Seq<Seq<u8>>) -> bool {
    &&& parts.len() == segments.len()
    &&& forall|i: int|
        0 <= i < parts.len() ==> (#[trigger] parts[i] matches Part::Literal(text)
            ==> percent_decoded(text) == percent_decoded(segments[i]))
}

/// What the captures of the template bind in a path that fits: each name to
/// the decoded segment at its place, a later place replacing an earlier one
/// of the same name.
pub open spec fn bindings(parts: Seq<Part>, segments: Seq<Seq<u8>>) -> Map<Seq<u8>, Seq<u8>>
    decreases parts.len(),
{
    if parts.len() == 0 {
        Map::empty()
    } else {
        let before = bindings(parts.drop_last(), segments.drop_last());
        match parts.last() {
            Part::Capture(name) => before.insert(name, percent_decoded(segments.last())),
            Part::Literal(_) => before,
        }
    }
}

/// The result of matching segments against a template.
pub open spec fn matched_segments(parts: Seq<Part>, segments: Seq<Seq<u8>>) -> Option<
    Map<Seq<u8>, Seq<u8>>,
> {
    if fits(parts, segments) {
        Some(bindings(parts, segments))
    } else {
        None
    }
}

/// The result of matching a concrete path against a template.
pub open spec fn matched(parts: Seq<Part>, path: Seq<u8>) -> Option<Map<Seq<u8>, Seq<u8>>> {
    matched_segments(parts, split(path, SEPARATOR))
}

/// Every capture of the template has a value.
pub open spec fn renderable(parts: Seq<Part>, values: Map<Seq<u8>, Seq<u8>>) -> bool {
    forall|i: int|
        0 <= i < parts.len() ==> (#[trigger] parts[i] matches Part::Capture(name)
            ==> values.contains_key(name))
}

/// What stands for one segment in a rendered path: a literal as it is
/// written, a capture's value percent-encoded or, where `encode` is off, as
/// it is.
pub open spec fn piece(part: Part, values: Map<Seq<u8>, Seq<u8>>, encode: bool) -> Seq<u8> {
    match part {
        Part::Literal(text) => text,
        Part::Capture(name) => if encode {
            percent_encoded(values[name])
        } else {
            values[name]
        },
    }
}

/// The rendered segments of a template.
pub open spec fn pieces(parts: Seq<Part>, values: Map<Seq<u8>, Seq<u8>>, encode: bool) -> Seq<
    Seq<u8>,
> {
    Seq::new(parts.len(), |i: int| piece(parts[i], values, encode))
}

/// The rendered path, or `None` where a capture has no value.
pub open spec fn rendered(parts: Seq<Part>, values: Map<Seq<u8>, Seq<u8>>, encode: bool) -> Option<
    Seq<u8>,
> {
    if renderable(parts, values) {
        Some(join(pieces(parts, values, encode), SEPARATOR))
    } else {
        None
    }
}

/// A template in which no segment is written as a capture renders as its
/// own text, whatever the values are.
pub proof fn lemma_plain_template_renders_its_text(
    pattern: Seq<u8>,
    values: Map<Seq<u8>, Seq<u8>>,
    encode: bool,
)
    requires
        forall|i: int|
            0 <= i < split(pattern, SEPARATOR).len() ==> !is_capture(
                #[trigger] split(pattern, SEPARATOR)[i],
            ),
    ensures
        rendered(compiled(pattern), values, encode) == Some(pattern),
{
    let segments = split(pattern, SEPARATOR);
    let parts = compiled(pattern);
    assert forall|i: int| 0 <= i < parts.len() implies (#[trigger] parts[i]
        == Part::Literal(segments[i])) by {
        assert(!is_capture(segments[i]));
    }
    assert(pieces(parts, values, encode) =~= segments);
    lemma_join_split(pattern, SEPARATOR);
}

/// Every capture of a template is bound by a match.
pub proof fn lemma_captures_are_bound(parts: Seq<Part>, segments: Seq<Seq<u8>>, i: int)
    requires
        parts.len() == segments.len(),
        0 <= i < parts.len(),
        parts[i] is Capture,
    ensures
        bindings(parts, segments).contains_key(parts[i]->Capture_0),
    decreases parts.len(),
{
    if i < parts.len() - 1 {
        lemma_captures_are_bound(parts.drop_last(), segments.drop_last(), i);
    }
}

/// What a path binds under a template is enough to render the template.
pub proof fn lemma_match_renders(parts: Seq<Part>, path: Seq<u8>, encode: bool)
    requires
        matched(parts, path) is Some,
    ensures
        rendered(parts, matched(parts, path).unwrap(), encode) is Some,
{
    let segments = split(path, SEPARATOR);
    let values = bindings(parts, segments);
    assert forall|i: int| 0 <= i < parts.len() implies (#[trigger] parts[i] matches Part::Capture(
        name,
    ) ==> values.contains_key(name)) by {
        if parts[i] is Capture {
            lemma_captures_are_bound(parts, segments, i);
        }
    }
}

/// A path matches only a template with as many segments as it has.
pub proof fn lemma_match_is_positional(parts: Seq<Part>, path: Seq<u8>)
    requires
        matched(parts, path) is Some,
    ensures
        parts.len() == split(path, SEPARATOR).len(),
{
}

/// The name `uri`, the one capture that a default target may hold.
pub open spec fn uri_name() -> Seq<u8> {
    seq![0x75u8, 0x72u8, 0x69u8]
}

/// The template captures nothing but `uri`.
pub open spec fn captures_only_uri(parts: Seq<Part>) -> bool {
    forall|i: int|
        0 <= i < parts.len() ==> (#[trigger] parts[i] matches Part::Capture(name) ==> name
            == uri_name())
}

/// What a list of name and value entries binds: each name to the value of
/// its last entry.
pub open spec fn entries_map(entries: Seq<(Vec<u8>, Vec<u8>)>) -> Map<Seq<u8>, Seq<u8>>
    decreases entries.len(),
{
    if entries.len() == 0 {
        Map::empty()
    } else {
        entries_map(entries.drop_last()).insert(entries.last().0@, entries.last().1@)
    }
}

/// A name that no entry from `from` on holds is bound as the entries before
/// `from` bind it.
proof fn lemma_entries_map_tail(entries: Seq<(Vec<u8>, Vec<u8>)>, from: int, name: Seq<u8>)
    requires
        0 <= from <= entries.len(),
        forall|j: int| from <= j < entries.len() ==> (#[trigger] entries[j]).0@ != name,
    ensures
        entries_map(entries).contains_key(name) == entries_map(entries.take(from)).contains_key(
            name,
        ),
        entries_map(entries).contains_key(name) ==> entries_map(entries)[name] == entries_map(
            entries.take(from),
        )[name],
    decreases entries.len() - from,
{
    if from == entries.len() {
        assert(entries.take(from) =~= entries);
    } else {
        let shorter = entries.drop_last();
        assert(entries.last() == entries[entries.len() - 1]);
        lemma_entries_map_tail(shorter, from, name);
        assert(shorter.take(from) =~= entries.take(from));
    }
}

/// The values captured by a match, by name.
pub struct CaptureMap {
    entries: Vec<(Vec<u8>, Vec<u8>)>,
}

impl View for CaptureMap {
    type V = Map<Seq<u8>, Seq<u8>>;

    closed spec fn view(&self) -> Map<Seq<u8>, Seq<u8>> {
        entries_map(self.entries@)
    }
}

impl CaptureMap {
    /// A map that binds nothing.
    pub fn new() -> (r: Self)
        ensures
            r@ == Map::<Seq<u8>, Seq<u8>>::empty(),
    {
        CaptureMap { entries: Vec::new() }
    }

    /// Binds `name` to `value`, in place of what it was bound to.
    pub fn insert(&mut self, name: Vec<u8>, value: Vec<u8>)
        ensures
            final(self)@ == old(self)@.insert(name@, value@),
    {
        let ghost before = self.entries@;
        self.entries.push((name, value));
        assert(self.entries@.drop_last() =~= before);
    }

    /// Whether nothing is bound.
    pub fn is_empty(&self) -> (r: bool)
        ensures
            r == (self@ == Map::<Seq<u8>, Seq<u8>>::empty()),
    {
        let r = self.entries.len() == 0;
        proof {
            if !r {
                let last = self.entries@.last();
                assert(self@.contains_key(last.0@));
            }
        }
        r
    }

    /// The value that `name` is bound to, if it is bound.
    pub fn get(&self, name: &[u8]) -> (r: Option<&Vec<u8>>)
        ensures
            match r {
                Some(value) => self@.contains_key(name@) && self@[name@] == value@,
                None => !self@.contains_key(name@),
            },
    {
        let mut i: usize = self.entries.len();
        while i > 0
            invariant
                i <= self.entries.len(),
                forall|j: int| i <= j < self.entries.len() ==> (#[trigger] self.entries@[j]).0@
                    != name@,
            decreases i,
        {
            i -= 1;
            if same_bytes(self.entries[i].0.as_slice(), name) {
                proof {
                    lemma_entries_map_tail(self.entries@, i + 1, name@);
                    let upto = self.entries@.take(i + 1);
                    assert(upto.last() == self.entries@[i as int]);
                }
                return Some(&self.entries[i].1);
            }
        }
        proof {
            lemma_entries_map_tail(self.entries@, 0, name@);
            assert(self.entries@.take(0) =~= Seq::<(Vec<u8>, Vec<u8>)>::empty());
        }
        None
    }

}

/// A compiled path template.
pub struct PathPattern {
    segments: Vec<Segment>,
}

impl View for PathPattern {
    type V = Seq<Part>;

    closed spec fn view(&self) -> Seq<Part> {
        Seq::new(self.segments@.len(), |i: int| self.segments@[i]@)
    }
}

/// The segment of a compiled template that the text `segment` stands for.
pub fn compile_segment(segment: &[u8]) -> (r: Segment)
    ensures
        r@ == part_of(segment@),
{
    let n = segment.len();
    if n >= 2 && segment[0] == LT && segment[n - 1] == GT {
        Segment::Capture(slice_to_vec(slice_subrange(segment, 1, n - 1)))
    } else {
        Segment::Literal(slice_to_vec(segment))
    }
}

impl PathPattern {
    /// Compiles the text of a template.
    pub fn compile(pattern: &[u8]) -> (r: Self)
        ensures
            r@ == compiled(pattern@),
    {
        let texts = split_bytes(pattern, SEPARATOR);
        let mut segments: Vec<Segment> = Vec::new();
        let mut i: usize = 0;
        while i < texts.len()
            invariant
                i <= texts.len(),
                segments@.len() == i,
                forall|j: int| 0 <= j < i ==> (#[trigger] segments@[j])@ == part_of(texts@[j]@),
            decreases texts.len() - i,
        {
            segments.push(compile_segment(texts[i].as_slice()));
            i += 1;
        }
        let r = PathPattern { segments };
        assert(r@ =~= compiled(pattern@));
        r
    }

    /// Compiles the text of a template that serves as default target. Such
    /// a template may capture `uri` and nothing else: any other capture is
    /// a configuration error.
    pub fn compile_default_target(pattern: &[u8]) -> (r: Result<Self, CsrfError>)
        ensures
            match r {
                Ok(p) => p@ == compiled(pattern@) && captures_only_uri(compiled(pattern@)),
                Err(e) => e == CsrfError::ConfigError && !captures_only_uri(compiled(pattern@)),
            },
    {
        let compiled = Self::compile(pattern);
        if compiled.captures_only_uri() {
            Ok(compiled)
        } else {
            Err(CsrfError::ConfigError)
        }
    }

    /// Whether the template captures nothing but `uri`.
    pub fn captures_only_uri(&self) -> (r: bool)
        ensures
            r == captures_only_uri(self@),
    {
        let mut i: usize = 0;
        while i < self.segments.len()
            invariant
                i <= self.segments.len(),
                forall|j: int|
                    0 <= j < i ==> (#[trigger] self@[j] matches Part::Capture(name) ==> name
                        == uri_name()),
            decreases self.segments.len() - i,
        {
            match &self.segments[i] {
                Segment::Capture(name) => {
                    let ok = name.len() == 3 && name[0] == 0x75 && name[1] == 0x72 && name[2]
                        == 0x69;
                    if !ok {
                        assert(self@[i as int] == Part::Capture(name@));
                        assert(name@ != uri_name());
                        return false;
                    }
                    assert(name@ =~= uri_name());
                },
                Segment::Literal(_) => {},
            }
            i += 1;
        }
        true
    }

    /// The number of segments of the template.
    pub fn len(&self) -> (n: usize)
        ensures
            n == self@.len(),
    {
        self.segments.len()
    }

    /// Matches concrete segments against the template.
    pub fn match_segments(&self, segments: &Vec<Vec<u8>>) -> (r: Option<CaptureMap>)
        ensures
            match r {
                Some(captures) => matched_segments(self@, views(segments@)) == Some(captures@),
                None => matched_segments(self@, views(segments@)) is None,
            },
    {
        if self.segments.len() != segments.len() {
            return None;
        }
        let ghost parts = self@;
        let ghost texts = views(segments@);
        let mut captures = CaptureMap::new();
        let mut i: usize = 0;
        assert(parts.take(0) =~= Seq::<Part>::empty());
        while i < self.segments.len()
            invariant
                i <= self.segments.len(),
                self.segments.len() == segments.len(),
                parts == self@,
                texts == views(segments@),
                captures@ == bindings(parts.take(i as int), texts.take(i as int)),
                forall|j: int|
                    0 <= j < i ==> (#[trigger] parts[j] matches Part::Literal(text)
                        ==> percent_decoded(text) == percent_decoded(texts[j])),
            decreases self.segments.len() - i,
        {
            let decoded = percent_decode(segments[i].as_slice());
            proof {
                assert(parts.take(i + 1).drop_last() =~= parts.take(i as int));
                assert(texts.take(i + 1).drop_last() =~= texts.take(i as int));
                assert(parts.take(i + 1).last() == parts[i as int]);
                assert(texts.take(i + 1).last() == texts[i as int]);
                assert(texts[i as int] == segments@[i as int]@);
                assert(parts[i as int] == self.segments@[i as int]@);
            }
            match &self.segments[i] {
                Segment::Literal(text) => {
                    let wanted = percent_decode(text.as_slice());
                    if !same_bytes(wanted.as_slice(), decoded.as_slice()) {
                        return None;
                    }
                },
                Segment::Capture(name) => {
                    captures.insert(name.clone(), decoded);
                },
            }
            i += 1;
        }
        assert(parts.take(i as int) =~= parts);
        assert(texts.take(i as int) =~= texts);
        Some(captures)
    }

    /// Matches a concrete path against the template: `None` unless the path
    /// has as many segments as the template and holds every literal at its
    /// place; else what the captures bind.
    pub fn match_path(&self, path: &[u8]) -> (r: Option<CaptureMap>)
        ensures
            match r {
                Some(captures) => matched(self@, path@) == Some(captures@),
                None => matched(self@, path@) is None,
            },
    {
        let segments = split_bytes(path, SEPARATOR);
        self.match_segments(&segments)
    }

    fn render_with(&self, values: &CaptureMap, encode: bool) -> (r: Option<Vec<u8>>)
        ensures
            match r {
                Some(path) => rendered(self@, values@, encode) == Some(path@),
                None => rendered(self@, values@, encode) is None,
            },
    {
        let ghost parts = self@;
        let ghost all = pieces(parts, values@, encode);
        let mut out: Vec<u8> = Vec::new();
        let mut i: usize = 0;
        assert(all.take(0) =~= Seq::<Seq<u8>>::empty());
        while i < self.segments.len()
            invariant
                i <= self.segments.len(),
                parts == self@,
                all == pieces(parts, values@, encode),
                out@ == join(all.take(i as int), SEPARATOR),
                forall|j: int|
                    0 <= j < i ==> (#[trigger] parts[j] matches Part::Capture(name)
                        ==> values@.contains_key(name)),
            decreases self.segments.len() - i,
        {
            proof {
                assert(all.take(i + 1).drop_last() =~= all.take(i as int));
                assert(all.take(i + 1).last() == all[i as int]);
                assert(parts[i as int] == self.segments@[i as int]@);
            }
            if i > 0 {
                out.push(SEPARATOR);
            }
            match &self.segments[i] {
                Segment::Literal(text) => {
                    append_bytes(&mut out, text.as_slice());
                },
                Segment::Capture(name) => {
                    match values.get(name.as_slice()) {
                        Some(value) => {
                            if encode {
                                let encoded = percent_encode(value.as_slice());
                                append_bytes(&mut out, encoded.as_slice());
                            } else {
                                append_bytes(&mut out, value.as_slice());
                            }
                        },
                        None => {
                            return None;
                        },
                    }
                },
            }
            i += 1;
        }
        assert(all.take(i as int) =~= all);
        Some(out)
    }

    /// Renders the template: literals as they are written, each capture
    /// replaced by its value, percent-encoded. `None` exactly where a
    /// capture has no value.
    pub fn render(&self, values: &CaptureMap) -> (r: Option<Vec<u8>>)
        ensures
            match r {
                Some(path) => rendered(self@, values@, true) == Some(path@),
                None => rendered(self@, values@, true) is None,
            },
    {
        self.render_with(values, true)
    }

    /// Renders the template with values that are already fit for a path:
    /// each capture is replaced by its value as it is.
    pub fn render_verbatim(&self, values: &CaptureMap) -> (r: Option<Vec<u8>>)
        ensures
            match r {
                Some(path) => rendered(self@, values@, false) == Some(path@),
                None => rendered(self@, values@, false) is None,
            },
    {
        self.render_with(values, false)
    }
}

} // verus!
