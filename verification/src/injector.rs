//! Streaming insertion of a hidden token field into HTML form tags.
//!
//! The document is treated as raw bytes. After the `>` that closes every
//! form-opening tag a fixed piece of markup is inserted; every other byte is
//! passed through untouched. The transform is defined once over the whole
//! document ([`injected`]) and computed by a small machine that takes the
//! document in chunks of any size and keeps at most four bytes between them.

use vstd::prelude::*;
use vstd::slice::{slice_subrange, slice_to_vec};
use vstd::string::StringSliceAdditionalSpecFns;
use crate::encoding::{base64url_encode, base64url_encoded, encode_limit};
use crate::bytes::append_bytes;
use crate::CSRF_FORM_FIELD;

verus! {

/// The byte `<`.
pub const LT: u8 = 0x3c;

/// The byte `>`.
pub const GT: u8 = 0x3e;

/// Length of the byte sequence that opens a form element.
pub const FORM_OPEN_LEN: usize = 5;

/// The lower-case form of an ASCII letter; any other byte unchanged.
pub open spec fn ascii_lower(b: u8) -> u8 {
    if 0x41 <= b && b <= 0x5a {
        (b + 0x20) as u8
    } else {
        b
    }
}

/// The bytes `<form`, which open a form element when read without regard to
/// letter case.
pub open spec fn form_open() -> Seq<u8> {
    seq![0x3cu8, 0x66u8, 0x6fu8, 0x72u8, 0x6du8]
}

/// The first `n` bytes of `s` agree with the first `n` bytes of `<form`,
/// letter case aside.
pub open spec fn matches_form_open(s: Seq<u8>, n: int) -> bool {
    forall|i: int| 0 <= i < n ==> ascii_lower(#[trigger] s[i]) == form_open()[i]
}

/// `s` begins with a form-opening sequence.
pub open spec fn starts_form(s: Seq<u8>) -> bool {
    s.len() >= 5 && matches_form_open(s, 5)
}

/// The document `s` with `markup` inserted after the closing `>` of every
/// form-opening tag.
pub open spec fn injected(s: Seq<u8>, markup: Seq<u8>) -> Seq<u8>
    decreases s.len(), 1int,
{
    if s.len() == 0 {
        s
    } else if starts_form(s) {
        s.take(5) + injected_in_tag(s.skip(5), markup)
    } else {
        seq![s[0]] + injected(s.skip(1), markup)
    }
}

/// The same for a document that begins inside a form-opening tag: the tag
/// runs up to the first `>`. A tag that never closes is passed through.
pub open spec fn injected_in_tag(s: Seq<u8>, markup: Seq<u8>) -> Seq<u8>
    decreases s.len(), 0int,
{
    if s.len() == 0 {
        s
    } else if s[0] == GT {
        seq![GT] + markup + injected(s.skip(1), markup)
    } else {
        seq![s[0]] + injected_in_tag(s.skip(1), markup)
    }
}

/// The number of form-opening tags of `s` that are closed by a `>`.
pub open spec fn closed_forms(s: Seq<u8>) -> nat
    decreases s.len(), 1int,
{
    if s.len() == 0 {
        0
    } else if starts_form(s) {
        closed_forms_in_tag(s.skip(5))
    } else {
        closed_forms(s.skip(1))
    }
}

/// The same for a document that begins inside a form-opening tag.
pub open spec fn closed_forms_in_tag(s: Seq<u8>) -> nat
    decreases s.len(), 0int,
{
    if s.len() == 0 {
        0
    } else if s[0] == GT {
        1 + closed_forms(s.skip(1))
    } else {
        closed_forms_in_tag(s.skip(1))
    }
}

/// The rewritten document is longer than the document by one copy of the
/// markup for every closed form-opening tag.
pub proof fn lemma_injected_len(s: Seq<u8>, markup: Seq<u8>)
    ensures
        injected(s, markup).len() == s.len() + closed_forms(s) * markup.len(),
        injected_in_tag(s, markup).len() == s.len() + closed_forms_in_tag(s) * markup.len(),
    decreases s.len(),
{
    let m = markup.len();
    if s.len() == 0 {
        assert(0 * m == 0) by (nonlinear_arith);
    } else {
        lemma_injected_len(s.skip(1), markup);
        let c = closed_forms(s.skip(1));
        if starts_form(s) {
            lemma_injected_len(s.skip(5), markup);
            assert(injected(s, markup).len() == 5 + injected_in_tag(s.skip(5), markup).len());
        } else {
            assert(injected(s, markup).len() == 1 + injected(s.skip(1), markup).len());
        }
        if s[0] == GT {
            assert(injected_in_tag(s, markup).len() == 1 + m + injected(s.skip(1), markup).len());
            assert((1 + c) * m == m + c * m) by (nonlinear_arith);
        } else {
            assert(injected_in_tag(s, markup).len() == 1 + injected_in_tag(
                s.skip(1),
                markup,
            ).len());
        }
    }
}

/// What the scanner remembers between two bytes.
pub struct Machine {
    /// Bytes held back because they may be the beginning of `<form`.
    pub pending: Seq<u8>,
    /// Whether the scanner is between `<form` and the `>` that closes the tag.
    pub inside_tag: bool,
}

impl Machine {
    /// The scanner before the first byte of a document.
    pub open spec fn start() -> Machine {
        Machine { pending: Seq::empty(), inside_tag: false }
    }

    /// The held-back bytes are a proper beginning of `<form`, and nothing is
    /// held back inside a tag.
    pub open spec fn wf(self) -> bool {
        &&& self.pending.len() < 5
        &&& self.inside_tag ==> self.pending.len() == 0
        &&& matches_form_open(self.pending, self.pending.len() as int)
    }
}

/// One byte of input: the next state and the bytes that can be emitted.
pub open spec fn step(m: Machine, b: u8, markup: Seq<u8>) -> (Machine, Seq<u8>) {
    if m.inside_tag {
        if b == GT {
            (Machine::start(), seq![b] + markup)
        } else {
            (m, seq![b])
        }
    } else if ascii_lower(b) == form_open()[m.pending.len() as int] {
        if m.pending.len() == 4 {
            (Machine { pending: Seq::empty(), inside_tag: true }, m.pending.push(b))
        } else {
            (Machine { pending: m.pending.push(b), inside_tag: false }, Seq::empty())
        }
    } else if b == LT {
        (Machine { pending: seq![b], inside_tag: false }, m.pending)
    } else {
        (Machine::start(), m.pending.push(b))
    }
}

/// A run of input bytes: the state after them and all that was emitted.
pub open spec fn run(m: Machine, input: Seq<u8>, markup: Seq<u8>) -> (Machine, Seq<u8>)
    decreases input.len(),
{
    if input.len() == 0 {
        (m, Seq::empty())
    } else {
        let (m1, out1) = step(m, input[0], markup);
        let (m2, out2) = run(m1, input.skip(1), markup);
        (m2, out1 + out2)
    }
}

/// A sequence of chunks fed one after the other.
pub open spec fn run_chunks(m: Machine, chunks: Seq<Seq<u8>>, markup: Seq<u8>) -> (
    Machine,
    Seq<u8>,
)
    decreases chunks.len(),
{
    if chunks.len() == 0 {
        (m, Seq::empty())
    } else {
        let (m1, out1) = run(m, chunks[0], markup);
        let (m2, out2) = run_chunks(m1, chunks.skip(1), markup);
        (m2, out1 + out2)
    }
}

/// The chunks joined into one document.
pub open spec fn joined(chunks: Seq<Seq<u8>>) -> Seq<u8>
    decreases chunks.len(),
{
    if chunks.len() == 0 {
        Seq::empty()
    } else {
        chunks[0] + joined(chunks.skip(1))
    }
}

/// Everything a stream yields for `chunks`: what the chunks emit, then what
/// is still held back when the stream ends.
pub open spec fn streamed(chunks: Seq<Seq<u8>>, markup: Seq<u8>) -> Seq<u8> {
    let (m, out) = run_chunks(Machine::start(), chunks, markup);
    out + m.pending
}

/// A step keeps the state well-formed.
pub proof fn lemma_step_wf(m: Machine, b: u8, markup: Seq<u8>)
    requires
        m.wf(),
    ensures
        step(m, b, markup).0.wf(),
{
}

/// A run keeps the state well-formed.
pub proof fn lemma_run_wf(m: Machine, input: Seq<u8>, markup: Seq<u8>)
    requires
        m.wf(),
    ensures
        run(m, input, markup).0.wf(),
    decreases input.len(),
{
    if input.len() > 0 {
        lemma_step_wf(m, input[0], markup);
        lemma_run_wf(step(m, input[0], markup).0, input.skip(1), markup);
    }
}

/// Feeding `a` and then `b` is feeding `a + b`.
pub proof fn lemma_run_concat(m: Machine, a: Seq<u8>, b: Seq<u8>, markup: Seq<u8>)
    ensures
        run(m, a + b, markup) == ({
            let (m1, out1) = run(m, a, markup);
            let (m2, out2) = run(m1, b, markup);
            (m2, out1 + out2)
        }),
    decreases a.len(),
{
    if a.len() == 0 {
        assert(a + b =~= b);
        assert(Seq::<u8>::empty() + run(m, b, markup).1 =~= run(m, b, markup).1);
    } else {
        let (m1, out1) = step(m, a[0], markup);
        assert((a + b)[0] == a[0]);
        assert((a + b).skip(1) =~= a.skip(1) + b);
        lemma_run_concat(m1, a.skip(1), b, markup);
        let (ma, outa) = run(m1, a.skip(1), markup);
        let (mb, outb) = run(ma, b, markup);
        assert(out1 + (outa + outb) =~= (out1 + outa) + outb);
    }
}

/// However a document is cut into chunks, feeding the chunks in turn is
/// feeding the document at once.
pub proof fn lemma_run_chunks(m: Machine, chunks: Seq<Seq<u8>>, markup: Seq<u8>)
    ensures
        run_chunks(m, chunks, markup) == run(m, joined(chunks), markup),
    decreases chunks.len(),
{
    if chunks.len() > 0 {
        let (m1, out1) = run(m, chunks[0], markup);
        lemma_run_chunks(m1, chunks.skip(1), markup);
        lemma_run_concat(m, chunks[0], joined(chunks.skip(1)), markup);
    }
}

/// A document with no room for `<form` is left as it is.
pub proof fn lemma_injected_short(s: Seq<u8>, markup: Seq<u8>)
    requires
        s.len() < 5,
    ensures
        injected(s, markup) == s,
    decreases s.len(),
{
    if s.len() > 0 {
        lemma_injected_short(s.skip(1), markup);
        assert(seq![s[0]] + s.skip(1) =~= s);
    }
}

/// Where no form opens at any of the first `k` positions, the first `k`
/// bytes pass through.
pub proof fn lemma_injected_skip(s: Seq<u8>, k: int, markup: Seq<u8>)
    requires
        0 <= k <= s.len(),
        forall|pos: int| 0 <= pos < k ==> !starts_form(#[trigger] s.skip(pos)),
    ensures
        injected(s, markup) == s.take(k) + injected(s.skip(k), markup),
    decreases k,
{
    if k == 0 {
        assert(s.skip(0) =~= s);
        assert(s.take(0) + injected(s, markup) =~= injected(s, markup));
    } else {
        assert(s.skip(0) =~= s);
        assert(!starts_form(s));
        let t = s.skip(1);
        assert forall|pos: int| 0 <= pos < k - 1 implies !starts_form(#[trigger] t.skip(pos)) by {
            assert(t.skip(pos) =~= s.skip(pos + 1));
        }
        lemma_injected_skip(t, k - 1, markup);
        assert(t.skip(k - 1) =~= s.skip(k));
        assert(seq![s[0]] + (t.take(k - 1) + injected(t.skip(k - 1), markup)) =~= s.take(k)
            + injected(s.skip(k), markup));
    }
}

/// What a stream that is in state `m` still owes for the remaining input
/// `rest`: the held-back bytes count as input not yet looked at.
pub open spec fn owed(m: Machine, rest: Seq<u8>, markup: Seq<u8>) -> Seq<u8> {
    if m.inside_tag {
        injected_in_tag(rest, markup)
    } else {
        injected(m.pending + rest, markup)
    }
}

/// From any well-formed state, what the machine emits for `rest` and then
/// gives up at the end is what the transform owes for it.
pub proof fn lemma_run_owed(m: Machine, rest: Seq<u8>, markup: Seq<u8>)
    requires
        m.wf(),
    ensures
        run(m, rest, markup).1 + run(m, rest, markup).0.pending == owed(m, rest, markup),
    decreases rest.len(),
{
    if rest.len() == 0 {
        assert(m.pending + rest =~= m.pending);
        assert(Seq::<u8>::empty() + m.pending =~= m.pending);
        if !m.inside_tag {
            lemma_injected_short(m.pending, markup);
        }
    } else {
        let b = rest[0];
        let tail = rest.skip(1);
        let (m1, out1) = step(m, b, markup);
        let (m2, out2) = run(m1, tail, markup);
        lemma_step_wf(m, b, markup);
        lemma_run_owed(m1, tail, markup);
        assert(out2 + m2.pending == owed(m1, tail, markup));
        assert((out1 + out2) + m2.pending =~= out1 + (out2 + m2.pending));
        lemma_step_owed(m, b, tail, markup);
        assert(seq![b] + tail =~= rest);
    }
}

/// No form opens inside bytes that are held back, once the byte after them
/// is known not to continue `<form`.
proof fn lemma_no_form_in_pending(m: Machine, b: u8, tail: Seq<u8>)
    requires
        m.wf(),
        !m.inside_tag,
        ascii_lower(b) != form_open()[m.pending.len() as int],
    ensures
        forall|pos: int|
            0 <= pos < m.pending.len() ==> !starts_form(
                #[trigger] (m.pending + (seq![b] + tail)).skip(pos),
            ),
        b != LT ==> !starts_form((m.pending + (seq![b] + tail)).skip(m.pending.len() as int)),
{
    let p = m.pending;
    let s = p + (seq![b] + tail);
    assert forall|pos: int| 0 <= pos < p.len() implies !starts_form(#[trigger] s.skip(pos)) by {
        let t = s.skip(pos);
        if t.len() >= 5 {
            if pos == 0 {
                assert(t[p.len() as int] == b);
            } else {
                assert(t[0] == p[pos]);
                assert(ascii_lower(p[pos]) == form_open()[pos]);
            }
        }
    }
    if b != LT {
        let t = s.skip(p.len() as int);
        if t.len() >= 5 {
            assert(t[0] == b);
        }
    }
}

/// One step emits exactly the part of what is owed that no longer depends on
/// the input to come.
proof fn lemma_step_owed(m: Machine, b: u8, tail: Seq<u8>, markup: Seq<u8>)
    requires
        m.wf(),
    ensures
        owed(m, seq![b] + tail, markup) == step(m, b, markup).1 + owed(
            step(m, b, markup).0,
            tail,
            markup,
        ),
{
    let rest = seq![b] + tail;
    let p = m.pending;
    let s = p + rest;
    assert(rest.skip(1) =~= tail);
    assert(Seq::<u8>::empty() + tail =~= tail);
    if m.inside_tag {
    } else if ascii_lower(b) == form_open()[p.len() as int] {
        if p.len() == 4 {
            assert(s.take(5) =~= p.push(b));
            assert(s.skip(5) =~= tail);
            assert(matches_form_open(s, 5)) by {
                assert forall|i: int| 0 <= i < 5 implies ascii_lower(#[trigger] s[i])
                    == form_open()[i] by {
                    if i < 4 {
                        assert(s[i] == p[i]);
                    }
                }
            }
        } else {
            assert(s =~= p.push(b) + tail);
            assert(Seq::<u8>::empty() + injected(s, markup) =~= injected(s, markup));
        }
    } else if b == LT {
        lemma_no_form_in_pending(m, b, tail);
        lemma_injected_skip(s, p.len() as int, markup);
        assert(s.take(p.len() as int) =~= p);
        assert(s.skip(p.len() as int) =~= seq![b] + tail);
    } else {
        lemma_no_form_in_pending(m, b, tail);
        lemma_injected_skip(s, p.len() as int + 1, markup);
        assert(s.take(p.len() as int + 1) =~= p.push(b));
        assert(s.skip(p.len() as int + 1) =~= tail);
    }
}

/// Chunk-boundary invariance: however a document is cut into chunks, even
/// inside `<form` or just before the closing `>`, the stream yields the
/// rewritten document.
pub proof fn lemma_streamed_is_injected(chunks: Seq<Seq<u8>>, markup: Seq<u8>)
    ensures
        streamed(chunks, markup) == injected(joined(chunks), markup),
{
    lemma_run_chunks(Machine::start(), chunks, markup);
    lemma_run_owed(Machine::start(), joined(chunks), markup);
    assert(Seq::<u8>::empty() + joined(chunks) =~= joined(chunks));
}

/// Two ways of cutting the same document into chunks yield the same stream.
pub proof fn lemma_chunking_invariance(a: Seq<Seq<u8>>, b: Seq<Seq<u8>>, markup: Seq<u8>)
    requires
        joined(a) == joined(b),
    ensures
        streamed(a, markup) == streamed(b, markup),
{
    lemma_streamed_is_injected(a, markup);
    lemma_streamed_is_injected(b, markup);
}

/// The hidden field's markup up to the field's name.
pub const FIELD_HEAD: &'static str = "<input type=\"hidden\" name=\"";

/// The hidden field's markup between the field's name and its value.
pub const FIELD_MID: &'static str = "\" value=\"";

/// The hidden field's markup after its value.
pub const FIELD_TAIL: &'static str = "\"/>";

/// The markup of a hidden input that is named by [`CSRF_FORM_FIELD`] and
/// carries `value`.
pub open spec fn hidden_field(value: Seq<u8>) -> Seq<u8> {
    FIELD_HEAD.spec_bytes() + CSRF_FORM_FIELD.spec_bytes() + FIELD_MID.spec_bytes() + value
        + FIELD_TAIL.spec_bytes()
}

/// The three phases of the scanner.
#[derive(Clone, Copy, PartialEq, Eq, Debug, Structural)]
pub enum ScanState {
    /// Outside any form-opening tag, nothing held back.
    Scanning,
    /// Outside any form-opening tag, holding back what may begin `<form`.
    PendingPrefix,
    /// Between `<form` and the `>` that closes the tag.
    InsideTag,
}

impl Machine {
    /// The phase that this state is in.
    pub open spec fn phase(self) -> ScanState {
        if self.inside_tag {
            ScanState::InsideTag
        } else if self.pending.len() > 0 {
            ScanState::PendingPrefix
        } else {
            ScanState::Scanning
        }
    }
}

/// Rewrites a document that arrives in chunks.
pub struct StreamInjector {
    markup: Vec<u8>,
    pending: Vec<u8>,
    inside_tag: bool,
}

impl View for StreamInjector {
    type V = Machine;

    closed spec fn view(&self) -> Machine {
        Machine { pending: self.pending@, inside_tag: self.inside_tag }
    }
}

fn to_ascii_lower(b: u8) -> (r: u8)
    ensures
        r == ascii_lower(b),
{
    if 0x41 <= b && b <= 0x5a {
        b + 0x20
    } else {
        b
    }
}

fn form_open_byte(i: usize) -> (b: u8)
    requires
        i < 5,
    ensures
        b == form_open()[i as int],
{
    if i == 0 {
        0x3c
    } else if i == 1 {
        0x66
    } else if i == 2 {
        0x6f
    } else if i == 3 {
        0x72
    } else {
        0x6d
    }
}

impl StreamInjector {
    #[verifier::type_invariant]
    spec fn well_formed(self) -> bool {
        (Machine { pending: self.pending@, inside_tag: self.inside_tag }).wf()
    }

    /// The markup that this injector inserts.
    pub closed spec fn markup(&self) -> Seq<u8> {
        self.markup@
    }

    /// An injector at the start of a document, which inserts a hidden field
    /// with the given value, written as it is.
    pub fn with_field_value(value: &[u8]) -> (r: Self)
        ensures
            r@ == Machine::start(),
            r.markup() == hidden_field(value@),
    {
        let mut markup: Vec<u8> = Vec::new();
        append_bytes(&mut markup, FIELD_HEAD.as_bytes());
        append_bytes(&mut markup, CSRF_FORM_FIELD.as_bytes());
        append_bytes(&mut markup, FIELD_MID.as_bytes());
        append_bytes(&mut markup, value);
        append_bytes(&mut markup, FIELD_TAIL.as_bytes());
        StreamInjector { markup, pending: Vec::new(), inside_tag: false }
    }

    /// An injector at the start of a document, which inserts a hidden field
    /// whose value is the transport encoding of `token`.
    pub fn new(token: &[u8]) -> (r: Self)
        requires
            token@.len() <= encode_limit(),
        ensures
            r@ == Machine::start(),
            r.markup() == hidden_field(base64url_encoded(token@)),
    {
        let value = base64url_encode(token);
        Self::with_field_value(value.as_slice())
    }

    /// The phase that the scanner is in.
    pub fn state(&self) -> (s: ScanState)
        ensures
            s == self@.phase(),
            self@.wf(),
    {
        proof {
            use_type_invariant(self);
        }
        if self.inside_tag {
            ScanState::InsideTag
        } else if self.pending.len() > 0 {
            ScanState::PendingPrefix
        } else {
            ScanState::Scanning
        }
    }

    /// The number of bytes held back, which never exceeds four.
    pub fn pending_len(&self) -> (n: usize)
        ensures
            n == self@.pending.len(),
            n < FORM_OPEN_LEN,
    {
        proof {
            use_type_invariant(self);
        }
        self.pending.len()
    }

    /// Takes the next chunk of the document and returns the bytes that can
    /// be passed on.
    pub fn feed(&mut self, chunk: &[u8]) -> (out: Vec<u8>)
        ensures
            final(self).markup() == old(self).markup(),
            (final(self)@, out@) == run(old(self)@, chunk@, old(self).markup()),
    {
        let mut out: Vec<u8> = Vec::new();
        let mut pending = slice_to_vec(self.pending.as_slice());
        let mut inside_tag = self.inside_tag;
        let mut i: usize = 0;
        let ghost start = self@;
        let ghost markup = self.markup@;
        proof {
            use_type_invariant(&*self);
            assert(chunk@.skip(0) =~= chunk@);
            assert(out@ + run(start, chunk@, markup).1 =~= run(start, chunk@, markup).1);
        }
        while i < chunk.len()
            invariant
                i <= chunk.len(),
                self.markup@ == markup,
                (Machine { pending: pending@, inside_tag }).wf(),
                run(start, chunk@, markup) == (
                    run(Machine { pending: pending@, inside_tag }, chunk@.skip(i as int), markup).0,
                    out@ + run(
                        Machine { pending: pending@, inside_tag },
                        chunk@.skip(i as int),
                        markup,
                    ).1,
                ),
            decreases chunk.len() - i,
        {
            let b = chunk[i];
            let ghost before = Machine { pending: pending@, inside_tag };
            let ghost out_before = out@;
            let ghost rest = chunk@.skip(i as int);
            proof {
                assert(rest[0] == b);
                assert(rest.skip(1) =~= chunk@.skip(i + 1));
            }
            if inside_tag {
                out.push(b);
                if b == GT {
                    append_bytes(&mut out, self.markup.as_slice());
                    inside_tag = false;
                }
            } else {
                let k = pending.len();
                if to_ascii_lower(b) == form_open_byte(k) {
                    pending.push(b);
                    if k == 4 {
                        out.append(&mut pending);
                        inside_tag = true;
                    }
                } else {
                    out.append(&mut pending);
                    if b == LT {
                        pending.push(b);
                    } else {
                        out.push(b);
                    }
                }
            }
            i += 1;
            proof {
                let (m1, out1) = step(before, b, markup);
                lemma_step_wf(before, b, markup);
                assert(pending@ =~= m1.pending);
                assert(out@ =~= out_before + out1);
                let out2 = run(m1, rest.skip(1), markup).1;
                assert(out_before + (out1 + out2) =~= (out_before + out1) + out2);
            }
        }
        assert(chunk@.skip(chunk.len() as int) =~= Seq::<u8>::empty());
        assert(out@ + Seq::<u8>::empty() =~= out@);
        self.inside_tag = false;
        self.pending = pending;
        self.inside_tag = inside_tag;
        out
    }

    /// Ends the document: returns the bytes still held back and returns to
    /// the start state.
    pub fn finish(&mut self) -> (out: Vec<u8>)
        ensures
            final(self).markup() == old(self).markup(),
            final(self)@ == Machine::start(),
            out@ == old(self)@.pending,
    {
        proof {
            use_type_invariant(&*self);
        }
        let out = slice_to_vec(self.pending.as_slice());
        self.inside_tag = false;
        self.pending = Vec::new();
        out
    }
}

/// What a pulled stream holds: the scanner's state and the output that is
/// ready and not yet taken.
pub struct PullModel {
    pub machine: Machine,
    pub queued: Seq<u8>,
}

/// Rewrites a document for a reader that pulls the output in pieces of its
/// own choosing. Input is supplied chunk by chunk as the reader runs dry, so
/// that no more than one chunk's output is ever held.
pub struct PullInjector {
    injector: StreamInjector,
    ready: Vec<u8>,
    taken: usize,
}

impl View for PullInjector {
    type V = PullModel;

    closed spec fn view(&self) -> PullModel {
        PullModel { machine: self.injector@, queued: self.ready@.skip(self.skipped()) }
    }
}

impl PullInjector {
    /// The number of ready bytes that were taken already.
    closed spec fn skipped(&self) -> int {
        if self.taken <= self.ready@.len() {
            self.taken as int
        } else {
            self.ready@.len() as int
        }
    }

    /// The markup that is inserted.
    pub closed spec fn markup(&self) -> Seq<u8> {
        self.injector.markup()
    }

    /// A stream at the start of a document, with nothing ready, which
    /// inserts a hidden field whose value is the transport encoding of
    /// `token`.
    pub fn new(token: &[u8]) -> (r: Self)
        requires
            token@.len() <= encode_limit(),
        ensures
            r@ == (PullModel { machine: Machine::start(), queued: Seq::empty() }),
            r.markup() == hidden_field(base64url_encoded(token@)),
    {
        let r = PullInjector { injector: StreamInjector::new(token), ready: Vec::new(), taken: 0 };
        assert(r@.queued =~= Seq::<u8>::empty());
        r
    }

    /// The number of bytes that are ready to be taken.
    pub fn queued_len(&self) -> (n: usize)
        ensures
            n == self@.queued.len(),
    {
        if self.taken <= self.ready.len() {
            self.ready.len() - self.taken
        } else {
            0
        }
    }

    /// Supplies the next chunk of the document: what it lets through
    /// becomes ready after what is ready already.
    pub fn supply(&mut self, chunk: &[u8])
        ensures
            final(self).markup() == old(self).markup(),
            final(self)@.machine == run(old(self)@.machine, chunk@, old(self).markup()).0,
            final(self)@.queued == old(self)@.queued + run(
                old(self)@.machine,
                chunk@,
                old(self).markup(),
            ).1,
    {
        let mut out = self.injector.feed(chunk);
        self.queue(&mut out);
    }

    /// Ends the document: what the scanner still holds back becomes ready,
    /// and the scanner returns to the start state.
    pub fn end(&mut self)
        ensures
            final(self).markup() == old(self).markup(),
            final(self)@.machine == Machine::start(),
            final(self)@.queued == old(self)@.queued + old(self)@.machine.pending,
    {
        let mut out = self.injector.finish();
        self.queue(&mut out);
    }

    /// Puts output after what is ready.
    fn queue(&mut self, out: &mut Vec<u8>)
        ensures
            final(self).markup() == old(self).markup(),
            final(self)@.machine == old(self)@.machine,
            final(self)@.queued == old(self)@.queued + old(out)@,
    {
        if self.taken >= self.ready.len() {
            self.taken = 0;
            self.ready.clear();
        }
        let ghost before = self.ready@;
        let ghost skipped = self.skipped();
        self.ready.append(out);
        assert(self.ready@.skip(skipped) =~= before.skip(skipped) + old(out)@);
    }

    /// Takes up to `max` bytes of what is ready, in order.
    pub fn take(&mut self, max: usize) -> (out: Vec<u8>)
        ensures
            final(self).markup() == old(self).markup(),
            final(self)@.machine == old(self)@.machine,
            out@.len() == if max <= old(self)@.queued.len() {
                max as int
            } else {
                old(self)@.queued.len() as int
            },
            out@ == old(self)@.queued.take(out@.len() as int),
            final(self)@.queued == old(self)@.queued.skip(out@.len() as int),
    {
        let from = if self.taken <= self.ready.len() {
            self.taken
        } else {
            self.ready.len()
        };
        let available = self.ready.len() - from;
        let n = if max <= available {
            max
        } else {
            available
        };
        let ghost queued = self.ready@.skip(from as int);
        let out = slice_to_vec(slice_subrange(self.ready.as_slice(), from, from + n));
        assert(out@ =~= queued.take(n as int));
        self.taken = from + n;
        assert(self.ready@.skip(self.taken as int) =~= queued.skip(n as int));
        out
    }
}

/// Rewrites a whole document at once: `body` with a hidden field that
/// carries the transport encoding of `token` inserted into every form.
pub fn inject_all(token: &[u8], body: &[u8]) -> (out: Vec<u8>)
    requires
        token@.len() <= encode_limit(),
    ensures
        out@ == injected(body@, hidden_field(base64url_encoded(token@))),
{
    let mut injector = StreamInjector::new(token);
    let mut out = injector.feed(body);
    let mut tail = injector.finish();
    out.append(&mut tail);
    proof {
        let markup = hidden_field(base64url_encoded(token@));
        lemma_run_owed(Machine::start(), body@, markup);
        assert(Seq::<u8>::empty() + body@ =~= body@);
    }
    out
}

} // verus!
