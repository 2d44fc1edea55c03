//! Lossless byte codec for [`Envelope`] values.
//!
//! An envelope crosses a process boundary over a stream transport, so it must
//! serialize and deserialize without loss.  The format is fixed-width
//! little-endian: integers as their little-endian bytes, each character as its
//! Unicode scalar value in four bytes, strings and lists prefixed with their
//! length as a `u64`.  [`lemma_envelope_codec_lossless`] proves the exact
//! round trip, including empty argument and environment sequences.

use vstd::prelude::*;
use vstd::bytes::{
    lemma_auto_spec_u32_to_from_le_bytes, lemma_auto_spec_u64_to_from_le_bytes,
    spec_u32_from_le_bytes, spec_u32_to_le_bytes, spec_u64_from_le_bytes, spec_u64_to_le_bytes,
    u32_from_le_bytes, u32_to_le_bytes, u64_from_le_bytes, u64_to_le_bytes,
};
use vstd::utf8::{char_is_scalar, char_u32_cast, is_scalar};
use vstd::slice::slice_subrange;
use vstd::arithmetic::div_mod::lemma_fundamental_div_mod;
use crate::model::{Envelope, EnvelopeView, Event, EventView, Execution, ExecutionView, ProcessId,
    ReporterId};

verus! {

// ---------------------------------------------------------------------------
// Specification of the encoding
// ---------------------------------------------------------------------------

/// Bytes of a character sequence: each character as its scalar value in four
/// little-endian bytes, in order.
pub open spec fn spec_encode_chars(s: Seq<char>) -> Seq<u8>
    decreases s.len(),
{
    if s.len() == 0 {
        Seq::empty()
    } else {
        spec_u32_to_le_bytes(s[0] as u32) + spec_encode_chars(s.skip(1))
    }
}

/// Bytes of a string: its length as a `u64`, then its characters.
pub open spec fn spec_encode_str(s: Seq<char>) -> Seq<u8> {
    spec_u64_to_le_bytes(s.len() as u64) + spec_encode_chars(s)
}

/// Bytes of the elements of a string list, in order.
pub open spec fn spec_encode_str_items(l: Seq<Seq<char>>) -> Seq<u8>
    decreases l.len(),
{
    if l.len() == 0 {
        Seq::empty()
    } else {
        spec_encode_str(l[0]) + spec_encode_str_items(l.skip(1))
    }
}

/// Bytes of a string list: its length as a `u64`, then its elements.
pub open spec fn spec_encode_str_list(l: Seq<Seq<char>>) -> Seq<u8> {
    spec_u64_to_le_bytes(l.len() as u64) + spec_encode_str_items(l)
}

/// Bytes of the entries of a key/value list, in order, key before value.
pub open spec fn spec_encode_pair_items(l: Seq<(Seq<char>, Seq<char>)>) -> Seq<u8>
    decreases l.len(),
{
    if l.len() == 0 {
        Seq::empty()
    } else {
        spec_encode_str(l[0].0) + spec_encode_str(l[0].1) + spec_encode_pair_items(l.skip(1))
    }
}

/// Bytes of a key/value list: its length as a `u64`, then its entries.
pub open spec fn spec_encode_pair_list(l: Seq<(Seq<char>, Seq<char>)>) -> Seq<u8> {
    spec_u64_to_le_bytes(l.len() as u64) + spec_encode_pair_items(l)
}

/// Bytes of an execution: executable, arguments, working directory,
/// environment, in that order.
pub open spec fn spec_encode_execution(x: ExecutionView) -> Seq<u8> {
    spec_encode_str(x.executable) + spec_encode_str_list(x.arguments) + spec_encode_str(
        x.working_dir,
    ) + spec_encode_pair_list(x.environment)
}

/// Bytes of an event: the process id, then the execution.
pub open spec fn spec_encode_event(x: EventView) -> Seq<u8> {
    spec_u32_to_le_bytes(x.pid) + spec_encode_execution(x.execution)
}

/// Bytes of an envelope: reporter id, timestamp, then the event.
pub open spec fn spec_encode_envelope(v: EnvelopeView) -> Seq<u8> {
    spec_u64_to_le_bytes(v.rid) + spec_u64_to_le_bytes(v.timestamp) + spec_encode_event(v.event)
}

/// Whether every length in the execution fits the `u64` length prefixes.
/// Every value built from in-memory vectors and strings satisfies this.
pub open spec fn execution_encodable(x: ExecutionView) -> bool {
    &&& x.executable.len() <= u64::MAX
    &&& x.working_dir.len() <= u64::MAX
    &&& x.arguments.len() <= u64::MAX
    &&& forall|i: int| 0 <= i < x.arguments.len() ==> #[trigger] x.arguments[i].len() <= u64::MAX
    &&& x.environment.len() <= u64::MAX
    &&& forall|i: int|
        0 <= i < x.environment.len() ==> #[trigger] x.environment[i].0.len() <= u64::MAX
            && x.environment[i].1.len() <= u64::MAX
}

/// Whether every length in the envelope fits the `u64` length prefixes.
pub open spec fn envelope_encodable(v: EnvelopeView) -> bool {
    execution_encodable(v.event.execution)
}

// ---------------------------------------------------------------------------
// Specification of the decoding
// ---------------------------------------------------------------------------

/// Reads a `u64` from the front; yields the value and the remaining bytes.
pub open spec fn spec_decode_u64(data: Seq<u8>) -> Option<(u64, Seq<u8>)> {
    if data.len() >= 8 {
        Some((spec_u64_from_le_bytes(data.take(8)), data.skip(8)))
    } else {
        None
    }
}

/// Reads a `u32` from the front; yields the value and the remaining bytes.
pub open spec fn spec_decode_u32(data: Seq<u8>) -> Option<(u32, Seq<u8>)> {
    if data.len() >= 4 {
        Some((spec_u32_from_le_bytes(data.take(4)), data.skip(4)))
    } else {
        None
    }
}

/// Reads one character: a `u32` that must be a Unicode scalar value.
pub open spec fn spec_decode_char(data: Seq<u8>) -> Option<(char, Seq<u8>)> {
    match spec_decode_u32(data) {
        Some(vr) => if is_scalar(vr.0) {
            Some((vr.0 as char, vr.1))
        } else {
            None
        },
        None => None,
    }
}

/// Reads exactly `n` characters from the front.
pub open spec fn spec_decode_chars(data: Seq<u8>, n: nat) -> Option<(Seq<char>, Seq<u8>)>
    decreases n,
{
    if n == 0 {
        Some((Seq::empty(), data))
    } else {
        match spec_decode_char(data) {
            Some(cr) => match spec_decode_chars(cr.1, (n - 1) as nat) {
                Some(sr) => Some((seq![cr.0] + sr.0, sr.1)),
                None => None,
            },
            None => None,
        }
    }
}

/// Reads a length-prefixed string from the front.
pub open spec fn spec_decode_str(data: Seq<u8>) -> Option<(Seq<char>, Seq<u8>)> {
    match spec_decode_u64(data) {
        Some(nr) => spec_decode_chars(nr.1, nr.0 as nat),
        None => None,
    }
}

/// Reads exactly `n` length-prefixed strings from the front.
pub open spec fn spec_decode_str_items(data: Seq<u8>, n: nat) -> Option<(Seq<Seq<char>>, Seq<u8>)>
    decreases n,
{
    if n == 0 {
        Some((Seq::empty(), data))
    } else {
        match spec_decode_str(data) {
            Some(sr) => match spec_decode_str_items(sr.1, (n - 1) as nat) {
                Some(lr) => Some((seq![sr.0] + lr.0, lr.1)),
                None => None,
            },
            None => None,
        }
    }
}

/// Reads a length-prefixed string list from the front.
pub open spec fn spec_decode_str_list(data: Seq<u8>) -> Option<(Seq<Seq<char>>, Seq<u8>)> {
    match spec_decode_u64(data) {
        Some(nr) => spec_decode_str_items(nr.1, nr.0 as nat),
        None => None,
    }
}

/// Reads one key/value entry: two strings.
pub open spec fn spec_decode_pair(data: Seq<u8>) -> Option<((Seq<char>, Seq<char>), Seq<u8>)> {
    match spec_decode_str(data) {
        Some(kr) => match spec_decode_str(kr.1) {
            Some(vr) => Some(((kr.0, vr.0), vr.1)),
            None => None,
        },
        None => None,
    }
}

/// Reads exactly `n` key/value entries from the front.
pub open spec fn spec_decode_pair_items(data: Seq<u8>, n: nat) -> Option<
    (Seq<(Seq<char>, Seq<char>)>, Seq<u8>),
>
    decreases n,
{
    if n == 0 {
        Some((Seq::empty(), data))
    } else {
        match spec_decode_pair(data) {
            Some(pr) => match spec_decode_pair_items(pr.1, (n - 1) as nat) {
                Some(lr) => Some((seq![pr.0] + lr.0, lr.1)),
                None => None,
            },
            None => None,
        }
    }
}

/// Reads a length-prefixed key/value list from the front.
pub open spec fn spec_decode_pair_list(data: Seq<u8>) -> Option<
    (Seq<(Seq<char>, Seq<char>)>, Seq<u8>),
> {
    match spec_decode_u64(data) {
        Some(nr) => spec_decode_pair_items(nr.1, nr.0 as nat),
        None => None,
    }
}

/// Reads an execution: its four fields in encoding order.
pub open spec fn spec_decode_execution(data: Seq<u8>) -> Option<(ExecutionView, Seq<u8>)> {
    match spec_decode_str(data) {
        Some(er) => match spec_decode_str_list(er.1) {
            Some(ar) => match spec_decode_str(ar.1) {
                Some(wr) => match spec_decode_pair_list(wr.1) {
                    Some(vr) => Some(
                        (
                            ExecutionView {
                                executable: er.0,
                                arguments: ar.0,
                                working_dir: wr.0,
                                environment: vr.0,
                            },
                            vr.1,
                        ),
                    ),
                    None => None,
                },
                None => None,
            },
            None => None,
        },
        None => None,
    }
}

/// Reads an event: the process id, then the execution.
pub open spec fn spec_decode_event(data: Seq<u8>) -> Option<(EventView, Seq<u8>)> {
    match spec_decode_u32(data) {
        Some(pr) => match spec_decode_execution(pr.1) {
            Some(xr) => Some((EventView { pid: pr.0, execution: xr.0 }, xr.1)),
            None => None,
        },
        None => None,
    }
}

/// Reads an envelope: reporter id, timestamp, then the event.
pub open spec fn spec_decode_envelope(data: Seq<u8>) -> Option<(EnvelopeView, Seq<u8>)> {
    match spec_decode_u64(data) {
        Some(rr) => match spec_decode_u64(rr.1) {
            Some(tr) => match spec_decode_event(tr.1) {
                Some(er) => Some(
                    (EnvelopeView { rid: rr.0, timestamp: tr.0, event: er.0 }, er.1),
                ),
                None => None,
            },
            None => None,
        },
        None => None,
    }
}

/// Reads an envelope that must occupy the whole buffer.
pub open spec fn spec_decode_envelope_exact(data: Seq<u8>) -> Option<EnvelopeView> {
    match spec_decode_envelope(data) {
        Some(er) => if er.1.len() == 0 {
            Some(er.0)
        } else {
            None
        },
        None => None,
    }
}

// ---------------------------------------------------------------------------
// Executable encoder
// ---------------------------------------------------------------------------

fn encode_u64_into(out: &mut Vec<u8>, v: u64)
    ensures
        final(out)@ == old(out)@ + spec_u64_to_le_bytes(v),
{
    let mut bytes = u64_to_le_bytes(v);
    out.append(&mut bytes);
}

fn encode_u32_into(out: &mut Vec<u8>, v: u32)
    ensures
        final(out)@ == old(out)@ + spec_u32_to_le_bytes(v),
{
    let mut bytes = u32_to_le_bytes(v);
    out.append(&mut bytes);
}

fn encode_str_into(out: &mut Vec<u8>, s: &String)
    ensures
        final(out)@ == old(out)@ + spec_encode_str(s@),
        s@.len() <= u64::MAX,
{
    let st = s.as_str();
    let n = st.unicode_len();
    encode_u64_into(out, n as u64);
    proof {
        assert(s@.skip(0) =~= s@);
        assert(out@ + spec_encode_chars(s@) =~= old(out)@ + spec_encode_str(s@));
    }
    let mut i: usize = 0;
    while i < n
        invariant
            i <= n,
            n == s@.len(),
            st@ == s@,
            out@ + spec_encode_chars(s@.skip(i as int)) == old(out)@ + spec_encode_str(s@),
        decreases n - i,
    {
        let c = st.get_char(i);
        proof {
            assert(s@.skip(i as int)[0] == s@[i as int]);
            assert(s@.skip(i as int).skip(1) =~= s@.skip(i as int + 1));
        }
        let ghost before = out@;
        let mut bytes = u32_to_le_bytes(c as u32);
        out.append(&mut bytes);
        i += 1;
        proof {
            assert(out@ + spec_encode_chars(s@.skip(i as int)) =~= before + spec_encode_chars(
                s@.skip(i as int - 1),
            ));
        }
    }
    proof {
        assert(s@.skip(n as int) =~= Seq::<char>::empty());
        assert(out@ + spec_encode_chars(Seq::<char>::empty()) =~= out@);
    }
}

fn encode_str_list_into(out: &mut Vec<u8>, l: &Vec<String>)
    ensures
        final(out)@ == old(out)@ + spec_encode_str_list(l.deep_view()),
        l.deep_view().len() <= u64::MAX,
        forall|i: int|
            0 <= i < l.deep_view().len() ==> #[trigger] l.deep_view()[i].len() <= u64::MAX,
{
    let ghost dv = l.deep_view();
    let n = l.len();
    encode_u64_into(out, n as u64);
    proof {
        assert(dv.skip(0) =~= dv);
        assert(out@ + spec_encode_str_items(dv) =~= old(out)@ + spec_encode_str_list(dv));
    }
    let mut i: usize = 0;
    while i < n
        invariant
            i <= n,
            n == dv.len(),
            dv == l.deep_view(),
            out@ + spec_encode_str_items(dv.skip(i as int)) == old(out)@ + spec_encode_str_list(
                dv,
            ),
            forall|j: int| 0 <= j < i ==> #[trigger] dv[j].len() <= u64::MAX,
        decreases n - i,
    {
        proof {
            assert(dv.skip(i as int)[0] == dv[i as int]);
            assert(dv[i as int] == l@[i as int]@);
            assert(dv.skip(i as int).skip(1) =~= dv.skip(i as int + 1));
        }
        let ghost before = out@;
        encode_str_into(out, &l[i]);
        i += 1;
        proof {
            assert(out@ + spec_encode_str_items(dv.skip(i as int)) =~= before
                + spec_encode_str_items(dv.skip(i as int - 1)));
        }
    }
    proof {
        assert(dv.skip(n as int) =~= Seq::<Seq<char>>::empty());
        assert(out@ + spec_encode_str_items(Seq::<Seq<char>>::empty()) =~= out@);
    }
}

fn encode_pair_list_into(out: &mut Vec<u8>, l: &Vec<(String, String)>)
    ensures
        final(out)@ == old(out)@ + spec_encode_pair_list(l.deep_view()),
        l.deep_view().len() <= u64::MAX,
        forall|i: int|
            0 <= i < l.deep_view().len() ==> #[trigger] l.deep_view()[i].0.len() <= u64::MAX
                && l.deep_view()[i].1.len() <= u64::MAX,
{
    let ghost dv = l.deep_view();
    let n = l.len();
    encode_u64_into(out, n as u64);
    proof {
        assert(dv.skip(0) =~= dv);
        assert(out@ + spec_encode_pair_items(dv) =~= old(out)@ + spec_encode_pair_list(dv));
    }
    let mut i: usize = 0;
    while i < n
        invariant
            i <= n,
            n == dv.len(),
            dv == l.deep_view(),
            out@ + spec_encode_pair_items(dv.skip(i as int)) == old(out)@ + spec_encode_pair_list(
                dv,
            ),
            forall|j: int|
                0 <= j < i ==> #[trigger] dv[j].0.len() <= u64::MAX && dv[j].1.len() <= u64::MAX,
        decreases n - i,
    {
        proof {
            assert(dv.skip(i as int)[0] == dv[i as int]);
            assert(dv[i as int].0 == l@[i as int].0@);
            assert(dv[i as int].1 == l@[i as int].1@);
            assert(dv.skip(i as int).skip(1) =~= dv.skip(i as int + 1));
        }
        let ghost before = out@;
        encode_str_into(out, &l[i].0);
        encode_str_into(out, &l[i].1);
        i += 1;
        proof {
            assert(out@ + spec_encode_pair_items(dv.skip(i as int)) =~= before
                + spec_encode_pair_items(dv.skip(i as int - 1)));
        }
    }
    proof {
        assert(dv.skip(n as int) =~= Seq::<(Seq<char>, Seq<char>)>::empty());
        assert(out@ + spec_encode_pair_items(Seq::<(Seq<char>, Seq<char>)>::empty()) =~= out@);
    }
}

fn encode_execution_into(out: &mut Vec<u8>, x: &Execution)
    ensures
        final(out)@ == old(out)@ + spec_encode_execution(x@),
        execution_encodable(x@),
{
    let ghost before = out@;
    encode_str_into(out, &x.executable);
    encode_str_list_into(out, &x.arguments);
    encode_str_into(out, &x.working_dir);
    encode_pair_list_into(out, &x.environment);
    proof {
        assert(out@ =~= before + spec_encode_execution(x@));
    }
}

/// Serializes an envelope to its wire bytes.
pub fn encode_envelope(envelope: &Envelope) -> (out: Vec<u8>)
    ensures
        out@ == spec_encode_envelope(envelope@),
        envelope_encodable(envelope@),
{
    let mut out: Vec<u8> = Vec::new();
    encode_u64_into(&mut out, envelope.rid.0);
    encode_u64_into(&mut out, envelope.timestamp);
    encode_u32_into(&mut out, envelope.event.pid.0);
    encode_execution_into(&mut out, &envelope.event.execution);
    proof {
        assert(out@ =~= spec_encode_envelope(envelope@));
    }
    out
}

// ---------------------------------------------------------------------------
// Executable decoder
// ---------------------------------------------------------------------------

/// Relies on `char::from_u32`: it returns the character for every Unicode
/// scalar value and `None` for surrogates and values above the scalar range.
#[verifier::external_body]
fn char_from_scalar(v: u32) -> (r: Option<char>)
    ensures
        r == (if is_scalar(v) {
            Some(v as char)
        } else {
            None::<char>
        }),
{
    char::from_u32(v)
}

fn read_u64(data: &Vec<u8>, pos: usize) -> (r: Option<(u64, usize)>)
    requires
        pos <= data@.len(),
    ensures
        match r {
            Some(vp) => pos <= vp.1 <= data@.len() && spec_decode_u64(data@.skip(pos as int))
                == Some((vp.0, data@.skip(vp.1 as int))),
            None => spec_decode_u64(data@.skip(pos as int)) is None,
        },
{
    if data.len() - pos >= 8 {
        let sub = slice_subrange(data.as_slice(), pos, pos + 8);
        let v = u64_from_le_bytes(sub);
        proof {
            assert(data@.skip(pos as int).take(8) =~= data@.subrange(pos as int, pos as int + 8));
            assert(data@.skip(pos as int).skip(8) =~= data@.skip(pos as int + 8));
        }
        Some((v, pos + 8))
    } else {
        None
    }
}

fn read_u32(data: &Vec<u8>, pos: usize) -> (r: Option<(u32, usize)>)
    requires
        pos <= data@.len(),
    ensures
        match r {
            Some(vp) => pos <= vp.1 <= data@.len() && spec_decode_u32(data@.skip(pos as int))
                == Some((vp.0, data@.skip(vp.1 as int))),
            None => spec_decode_u32(data@.skip(pos as int)) is None,
        },
{
    if data.len() - pos >= 4 {
        let sub = slice_subrange(data.as_slice(), pos, pos + 4);
        let v = u32_from_le_bytes(sub);
        proof {
            assert(data@.skip(pos as int).take(4) =~= data@.subrange(pos as int, pos as int + 4));
            assert(data@.skip(pos as int).skip(4) =~= data@.skip(pos as int + 4));
        }
        Some((v, pos + 4))
    } else {
        None
    }
}

fn read_char(data: &Vec<u8>, pos: usize) -> (r: Option<(char, usize)>)
    requires
        pos <= data@.len(),
    ensures
        match r {
            Some(cp) => pos <= cp.1 <= data@.len() && spec_decode_char(data@.skip(pos as int))
                == Some((cp.0, data@.skip(cp.1 as int))),
            None => spec_decode_char(data@.skip(pos as int)) is None,
        },
{
    match read_u32(data, pos) {
        Some(vp) => match char_from_scalar(vp.0) {
            Some(c) => Some((c, vp.1)),
            None => None,
        },
        None => None,
    }
}

/// Decoding `n` characters consumes exactly four bytes per character.
proof fn lemma_decode_chars_len(data: Seq<u8>, n: nat)
    ensures
        spec_decode_chars(data, n) matches Some(sr) ==> sr.0.len() == n && data.len() == 4 * n
            + sr.1.len(),
    decreases n,
{
    if n > 0 {
        match spec_decode_char(data) {
            Some(cr) => {
                lemma_decode_chars_len(cr.1, (n - 1) as nat);
            },
            None => {},
        }
    }
}

fn decode_string(data: &Vec<u8>, pos: usize) -> (r: Option<(String, usize)>)
    requires
        pos <= data@.len(),
    ensures
        match r {
            Some(sp) => pos <= sp.1 <= data@.len() && spec_decode_str(data@.skip(pos as int))
                == Some((sp.0@, data@.skip(sp.1 as int))),
            None => spec_decode_str(data@.skip(pos as int)) is None,
        },
{
    let nr = read_u64(data, pos);
    if nr.is_none() {
        return None;
    }
    let (n64, p1) = nr.unwrap();
    let rem = data.len() - p1;
    if n64 > (rem / 4) as u64 {
        proof {
            lemma_fundamental_div_mod(rem as int, 4);
            lemma_decode_chars_len(data@.skip(p1 as int), n64 as nat);
        }
        return None;
    }
    let n = n64 as usize;
    let mut cs: Vec<char> = Vec::new();
    let mut p: usize = p1;
    let mut i: usize = 0;
    while i < n
        invariant
            i <= n,
            n <= data@.len(),
            p1 <= p <= data@.len(),
            cs@.len() == i,
            spec_decode_str(data@.skip(pos as int)) == (match spec_decode_chars(
                data@.skip(p as int),
                (n - i) as nat,
            ) {
                Some(sr) => Some((cs@ + sr.0, sr.1)),
                None => None::<(Seq<char>, Seq<u8>)>,
            }),
        decreases n - i,
    {
        let cr = read_char(data, p);
        if cr.is_none() {
            return None;
        }
        let (c, p2) = cr.unwrap();
        let ghost prev = cs@;
        cs.push(c);
        proof {
            match spec_decode_chars(data@.skip(p2 as int), (n - i - 1) as nat) {
                Some(sr) => {
                    assert(prev + (seq![c] + sr.0) =~= cs@ + sr.0);
                },
                None => {},
            }
        }
        p = p2;
        i += 1;
    }
    proof {
        assert(spec_decode_chars(data@.skip(p as int), 0) == Some(
            (Seq::<char>::empty(), data@.skip(p as int)),
        ));
        assert(cs@ + Seq::<char>::empty() =~= cs@);
    }
    let s = crate::model::string_from_chars(&cs);
    Some((s, p))
}

/// Decoding a string consumes at least its eight-byte length prefix.
proof fn lemma_decode_str_len(data: Seq<u8>)
    ensures
        spec_decode_str(data) matches Some(sr) ==> data.len() >= 8 + sr.1.len(),
{
    match spec_decode_u64(data) {
        Some(nr) => {
            lemma_decode_chars_len(nr.1, nr.0 as nat);
        },
        None => {},
    }
}

/// Decoding `n` strings consumes at least eight bytes per string.
proof fn lemma_decode_str_items_len(data: Seq<u8>, n: nat)
    ensures
        spec_decode_str_items(data, n) matches Some(lr) ==> lr.0.len() == n && data.len() >= 8 * n
            + lr.1.len(),
    decreases n,
{
    if n > 0 {
        match spec_decode_str(data) {
            Some(sr) => {
                lemma_decode_str_len(data);
                lemma_decode_str_items_len(sr.1, (n - 1) as nat);
            },
            None => {},
        }
    }
}

/// Decoding one key/value entry consumes at least sixteen bytes.
proof fn lemma_decode_pair_len(data: Seq<u8>)
    ensures
        spec_decode_pair(data) matches Some(pr) ==> data.len() >= 16 + pr.1.len(),
{
    match spec_decode_str(data) {
        Some(kr) => {
            lemma_decode_str_len(data);
            lemma_decode_str_len(kr.1);
        },
        None => {},
    }
}

/// Decoding `n` key/value entries consumes at least sixteen bytes per entry.
proof fn lemma_decode_pair_items_len(data: Seq<u8>, n: nat)
    ensures
        spec_decode_pair_items(data, n) matches Some(lr) ==> lr.0.len() == n && data.len() >= 16
            * n + lr.1.len(),
    decreases n,
{
    if n > 0 {
        match spec_decode_pair(data) {
            Some(pr) => {
                lemma_decode_pair_len(data);
                lemma_decode_pair_items_len(pr.1, (n - 1) as nat);
            },
            None => {},
        }
    }
}

fn decode_string_list(data: &Vec<u8>, pos: usize) -> (r: Option<(Vec<String>, usize)>)
    requires
        pos <= data@.len(),
    ensures
        match r {
            Some(lp) => pos <= lp.1 <= data@.len() && spec_decode_str_list(data@.skip(pos as int))
                == Some((lp.0.deep_view(), data@.skip(lp.1 as int))),
            None => spec_decode_str_list(data@.skip(pos as int)) is None,
        },
{
    let nr = read_u64(data, pos);
    if nr.is_none() {
        return None;
    }
    let (n64, p1) = nr.unwrap();
    let rem = data.len() - p1;
    if n64 > (rem / 8) as u64 {
        proof {
            lemma_fundamental_div_mod(rem as int, 8);
            lemma_decode_str_items_len(data@.skip(p1 as int), n64 as nat);
        }
        return None;
    }
    let n = n64 as usize;
    let mut items: Vec<String> = Vec::new();
    let mut p: usize = p1;
    let mut i: usize = 0;
    while i < n
        invariant
            i <= n,
            n <= data@.len(),
            p1 <= p <= data@.len(),
            items.deep_view().len() == i,
            spec_decode_str_list(data@.skip(pos as int)) == (match spec_decode_str_items(
                data@.skip(p as int),
                (n - i) as nat,
            ) {
                Some(lr) => Some((items.deep_view() + lr.0, lr.1)),
                None => None::<(Seq<Seq<char>>, Seq<u8>)>,
            }),
        decreases n - i,
    {
        let sr = decode_string(data, p);
        if sr.is_none() {
            return None;
        }
        let (s, p2) = sr.unwrap();
        let ghost prev = items.deep_view();
        let ghost sv = s@;
        items.push(s);
        proof {
            assert(items.deep_view() =~= prev.push(sv));
            match spec_decode_str_items(data@.skip(p2 as int), (n - i - 1) as nat) {
                Some(lr) => {
                    assert(prev + (seq![sv] + lr.0) =~= items.deep_view() + lr.0);
                },
                None => {},
            }
        }
        p = p2;
        i += 1;
    }
    proof {
        assert(items.deep_view() + Seq::<Seq<char>>::empty() =~= items.deep_view());
    }
    Some((items, p))
}

fn decode_pair_list(data: &Vec<u8>, pos: usize) -> (r: Option<(Vec<(String, String)>, usize)>)
    requires
        pos <= data@.len(),
    ensures
        match r {
            Some(lp) => pos <= lp.1 <= data@.len() && spec_decode_pair_list(
                data@.skip(pos as int),
            ) == Some((lp.0.deep_view(), data@.skip(lp.1 as int))),
            None => spec_decode_pair_list(data@.skip(pos as int)) is None,
        },
{
    let nr = read_u64(data, pos);
    if nr.is_none() {
        return None;
    }
    let (n64, p1) = nr.unwrap();
    let rem = data.len() - p1;
    if n64 > (rem / 16) as u64 {
        proof {
            lemma_fundamental_div_mod(rem as int, 16);
            lemma_decode_pair_items_len(data@.skip(p1 as int), n64 as nat);
        }
        return None;
    }
    let n = n64 as usize;
    let mut items: Vec<(String, String)> = Vec::new();
    let mut p: usize = p1;
    let mut i: usize = 0;
    while i < n
        invariant
            i <= n,
            n <= data@.len(),
            p1 <= p <= data@.len(),
            items.deep_view().len() == i,
            spec_decode_pair_list(data@.skip(pos as int)) == (match spec_decode_pair_items(
                data@.skip(p as int),
                (n - i) as nat,
            ) {
                Some(lr) => Some((items.deep_view() + lr.0, lr.1)),
                None => None::<(Seq<(Seq<char>, Seq<char>)>, Seq<u8>)>,
            }),
        decreases n - i,
    {
        let kr = decode_string(data, p);
        if kr.is_none() {
            proof {
                match spec_decode_pair(data@.skip(p as int)) {
                    Some(_) => {
                        assert(false);
                    },
                    None => {},
                }
            }
            return None;
        }
        let (k, pk) = kr.unwrap();
        let vr = decode_string(data, pk);
        if vr.is_none() {
            proof {
                match spec_decode_pair(data@.skip(p as int)) {
                    Some(_) => {
                        assert(false);
                    },
                    None => {},
                }
            }
            return None;
        }
        let (v, p2) = vr.unwrap();
        let ghost prev = items.deep_view();
        let ghost kv = k@;
        let ghost vv = v@;
        items.push((k, v));
        proof {
            assert(items.deep_view() =~= prev.push((kv, vv)));
            match spec_decode_pair_items(data@.skip(p2 as int), (n - i - 1) as nat) {
                Some(lr) => {
                    assert(prev + (seq![(kv, vv)] + lr.0) =~= items.deep_view() + lr.0);
                },
                None => {},
            }
        }
        p = p2;
        i += 1;
    }
    proof {
        assert(items.deep_view() + Seq::<(Seq<char>, Seq<char>)>::empty() =~= items.deep_view());
    }
    Some((items, p))
}

fn decode_execution(data: &Vec<u8>, pos: usize) -> (r: Option<(Execution, usize)>)
    requires
        pos <= data@.len(),
    ensures
        match r {
            Some(xp) => pos <= xp.1 <= data@.len() && spec_decode_execution(
                data@.skip(pos as int),
            ) == Some((xp.0@, data@.skip(xp.1 as int))),
            None => spec_decode_execution(data@.skip(pos as int)) is None,
        },
{
    let er = decode_string(data, pos);
    if er.is_none() {
        return None;
    }
    let (executable, p1) = er.unwrap();
    let ar = decode_string_list(data, p1);
    if ar.is_none() {
        return None;
    }
    let (arguments, p2) = ar.unwrap();
    let wr = decode_string(data, p2);
    if wr.is_none() {
        return None;
    }
    let (working_dir, p3) = wr.unwrap();
    let vr = decode_pair_list(data, p3);
    if vr.is_none() {
        return None;
    }
    let (environment, p4) = vr.unwrap();
    let x = Execution { executable, arguments, working_dir, environment };
    proof {
        match spec_decode_execution(data@.skip(pos as int)) {
            Some(xr) => {
                assert(x@ =~~= xr.0);
            },
            None => {
                assert(false);
            },
        }
    }
    Some((x, p4))
}

fn decode_envelope_at(data: &Vec<u8>, pos: usize) -> (r: Option<(Envelope, usize)>)
    requires
        pos <= data@.len(),
    ensures
        match r {
            Some(ep) => pos <= ep.1 <= data@.len() && spec_decode_envelope(
                data@.skip(pos as int),
            ) == Some((ep.0@, data@.skip(ep.1 as int))),
            None => spec_decode_envelope(data@.skip(pos as int)) is None,
        },
{
    let rr = read_u64(data, pos);
    if rr.is_none() {
        return None;
    }
    let (rid, p1) = rr.unwrap();
    let tr = read_u64(data, p1);
    if tr.is_none() {
        return None;
    }
    let (timestamp, p2) = tr.unwrap();
    let pr = read_u32(data, p2);
    if pr.is_none() {
        return None;
    }
    let (pid, p3) = pr.unwrap();
    let xr = decode_execution(data, p3);
    if xr.is_none() {
        return None;
    }
    let (execution, p4) = xr.unwrap();
    let envelope = Envelope {
        rid: ReporterId(rid),
        timestamp,
        event: Event { pid: ProcessId(pid), execution },
    };
    proof {
        match spec_decode_envelope(data@.skip(pos as int)) {
            Some(er) => {
                assert(envelope@ =~~= er.0);
            },
            None => {
                assert(false);
            },
        }
    }
    Some((envelope, p4))
}

/// Deserializes an envelope from its wire bytes; the envelope must occupy the
/// whole buffer.
pub fn decode_envelope(data: &Vec<u8>) -> (r: Option<Envelope>)
    ensures
        match r {
            Some(e) => spec_decode_envelope_exact(data@) == Some(e@),
            None => spec_decode_envelope_exact(data@) is None,
        },
{
    proof {
        assert(data@.skip(0) =~= data@);
    }
    match decode_envelope_at(data, 0) {
        Some(ep) => {
            let (e, p) = ep;
            if p == data.len() {
                Some(e)
            } else {
                None
            }
        },
        None => None,
    }
}

// ---------------------------------------------------------------------------
// The round trip
// ---------------------------------------------------------------------------

proof fn lemma_u64_round_trip(v: u64, rest: Seq<u8>)
    ensures
        spec_decode_u64(spec_u64_to_le_bytes(v) + rest) == Some((v, rest)),
{
    lemma_auto_spec_u64_to_from_le_bytes();
    assert((spec_u64_to_le_bytes(v) + rest).take(8) =~= spec_u64_to_le_bytes(v));
    assert((spec_u64_to_le_bytes(v) + rest).skip(8) =~= rest);
}

proof fn lemma_u32_round_trip(v: u32, rest: Seq<u8>)
    ensures
        spec_decode_u32(spec_u32_to_le_bytes(v) + rest) == Some((v, rest)),
{
    lemma_auto_spec_u32_to_from_le_bytes();
    assert((spec_u32_to_le_bytes(v) + rest).take(4) =~= spec_u32_to_le_bytes(v));
    assert((spec_u32_to_le_bytes(v) + rest).skip(4) =~= rest);
}

proof fn lemma_char_round_trip(c: char, rest: Seq<u8>)
    ensures
        spec_decode_char(spec_u32_to_le_bytes(c as u32) + rest) == Some((c, rest)),
{
    lemma_u32_round_trip(c as u32, rest);
    char_is_scalar(c);
    char_u32_cast(c, c as u32);
}

proof fn lemma_chars_round_trip(s: Seq<char>, rest: Seq<u8>)
    ensures
        spec_decode_chars(spec_encode_chars(s) + rest, s.len()) == Some((s, rest)),
    decreases s.len(),
{
    if s.len() == 0 {
        assert(spec_encode_chars(s) + rest =~= rest);
    } else {
        let head = spec_u32_to_le_bytes(s[0] as u32);
        let tail = spec_encode_chars(s.skip(1));
        assert(spec_encode_chars(s) + rest =~= head + (tail + rest));
        lemma_char_round_trip(s[0], tail + rest);
        lemma_chars_round_trip(s.skip(1), rest);
        assert(seq![s[0]] + s.skip(1) =~= s);
    }
}

proof fn lemma_str_round_trip(s: Seq<char>, rest: Seq<u8>)
    requires
        s.len() <= u64::MAX,
    ensures
        spec_decode_str(spec_encode_str(s) + rest) == Some((s, rest)),
{
    let chars = spec_encode_chars(s);
    assert(spec_encode_str(s) + rest =~= spec_u64_to_le_bytes(s.len() as u64) + (chars + rest));
    lemma_u64_round_trip(s.len() as u64, chars + rest);
    lemma_chars_round_trip(s, rest);
}

proof fn lemma_str_items_round_trip(l: Seq<Seq<char>>, rest: Seq<u8>)
    requires
        forall|i: int| 0 <= i < l.len() ==> #[trigger] l[i].len() <= u64::MAX,
    ensures
        spec_decode_str_items(spec_encode_str_items(l) + rest, l.len()) == Some((l, rest)),
    decreases l.len(),
{
    if l.len() == 0 {
        assert(spec_encode_str_items(l) + rest =~= rest);
    } else {
        let head = spec_encode_str(l[0]);
        let tail = spec_encode_str_items(l.skip(1));
        assert(spec_encode_str_items(l) + rest =~= head + (tail + rest));
        lemma_str_round_trip(l[0], tail + rest);
        lemma_str_items_round_trip(l.skip(1), rest);
        assert(seq![l[0]] + l.skip(1) =~= l);
    }
}

proof fn lemma_str_list_round_trip(l: Seq<Seq<char>>, rest: Seq<u8>)
    requires
        l.len() <= u64::MAX,
        forall|i: int| 0 <= i < l.len() ==> #[trigger] l[i].len() <= u64::MAX,
    ensures
        spec_decode_str_list(spec_encode_str_list(l) + rest) == Some((l, rest)),
{
    let items = spec_encode_str_items(l);
    assert(spec_encode_str_list(l) + rest =~= spec_u64_to_le_bytes(l.len() as u64) + (items
        + rest));
    lemma_u64_round_trip(l.len() as u64, items + rest);
    lemma_str_items_round_trip(l, rest);
}

proof fn lemma_pair_items_round_trip(l: Seq<(Seq<char>, Seq<char>)>, rest: Seq<u8>)
    requires
        forall|i: int|
            0 <= i < l.len() ==> #[trigger] l[i].0.len() <= u64::MAX && l[i].1.len() <= u64::MAX,
    ensures
        spec_decode_pair_items(spec_encode_pair_items(l) + rest, l.len()) == Some((l, rest)),
    decreases l.len(),
{
    if l.len() == 0 {
        assert(spec_encode_pair_items(l) + rest =~= rest);
    } else {
        let key = spec_encode_str(l[0].0);
        let value = spec_encode_str(l[0].1);
        let tail = spec_encode_pair_items(l.skip(1));
        assert(spec_encode_pair_items(l) + rest =~= key + (value + (tail + rest)));
        lemma_str_round_trip(l[0].0, value + (tail + rest));
        lemma_str_round_trip(l[0].1, tail + rest);
        lemma_pair_items_round_trip(l.skip(1), rest);
        assert(seq![l[0]] + l.skip(1) =~= l);
        assert((l[0].0, l[0].1) == l[0]);
    }
}

proof fn lemma_pair_list_round_trip(l: Seq<(Seq<char>, Seq<char>)>, rest: Seq<u8>)
    requires
        l.len() <= u64::MAX,
        forall|i: int|
            0 <= i < l.len() ==> #[trigger] l[i].0.len() <= u64::MAX && l[i].1.len() <= u64::MAX,
    ensures
        spec_decode_pair_list(spec_encode_pair_list(l) + rest) == Some((l, rest)),
{
    let items = spec_encode_pair_items(l);
    assert(spec_encode_pair_list(l) + rest =~= spec_u64_to_le_bytes(l.len() as u64) + (items
        + rest));
    lemma_u64_round_trip(l.len() as u64, items + rest);
    lemma_pair_items_round_trip(l, rest);
}

proof fn lemma_execution_round_trip(x: ExecutionView, rest: Seq<u8>)
    requires
        execution_encodable(x),
    ensures
        spec_decode_execution(spec_encode_execution(x) + rest) == Some((x, rest)),
{
    let a = spec_encode_str(x.executable);
    let b = spec_encode_str_list(x.arguments);
    let c = spec_encode_str(x.working_dir);
    let d = spec_encode_pair_list(x.environment);
    assert(spec_encode_execution(x) + rest =~= a + (b + (c + (d + rest))));
    lemma_str_round_trip(x.executable, b + (c + (d + rest)));
    lemma_str_list_round_trip(x.arguments, c + (d + rest));
    lemma_str_round_trip(x.working_dir, d + rest);
    lemma_pair_list_round_trip(x.environment, rest);
    match spec_decode_execution(spec_encode_execution(x) + rest) {
        Some(xr) => {
            assert(xr.0 =~~= x);
        },
        None => {
            assert(false);
        },
    }
}

proof fn lemma_event_round_trip(x: EventView, rest: Seq<u8>)
    requires
        execution_encodable(x.execution),
    ensures
        spec_decode_event(spec_encode_event(x) + rest) == Some((x, rest)),
{
    let body = spec_encode_execution(x.execution);
    assert(spec_encode_event(x) + rest =~= spec_u32_to_le_bytes(x.pid) + (body + rest));
    lemma_u32_round_trip(x.pid, body + rest);
    lemma_execution_round_trip(x.execution, rest);
    match spec_decode_event(spec_encode_event(x) + rest) {
        Some(er) => {
            assert(er.0 =~~= x);
        },
        None => {
            assert(false);
        },
    }
}

/// The round trip: decoding an encoded envelope, with any trailing bytes
/// behind it, yields the same envelope and leaves exactly those bytes.
pub proof fn lemma_envelope_round_trip(v: EnvelopeView, rest: Seq<u8>)
    requires
        envelope_encodable(v),
    ensures
        spec_decode_envelope(spec_encode_envelope(v) + rest) == Some((v, rest)),
{
    let body = spec_encode_event(v.event);
    assert(spec_encode_envelope(v) + rest =~= spec_u64_to_le_bytes(v.rid) + (spec_u64_to_le_bytes(
        v.timestamp,
    ) + (body + rest)));
    lemma_u64_round_trip(v.rid, spec_u64_to_le_bytes(v.timestamp) + (body + rest));
    lemma_u64_round_trip(v.timestamp, body + rest);
    lemma_event_round_trip(v.event, rest);
    match spec_decode_envelope(spec_encode_envelope(v) + rest) {
        Some(er) => {
            assert(er.0 =~~= v);
        },
        None => {
            assert(false);
        },
    }
}

/// Serialize-then-deserialize of an envelope yields an equal envelope: the
/// encoding loses nothing, for empty argument sequences and empty environment
/// mappings as much as for populated ones.
pub proof fn lemma_envelope_codec_lossless(v: EnvelopeView)
    requires
        envelope_encodable(v),
    ensures
        spec_decode_envelope_exact(spec_encode_envelope(v)) == Some(v),
{
    lemma_envelope_round_trip(v, Seq::empty());
    assert(spec_encode_envelope(v) + Seq::<u8>::empty() =~= spec_encode_envelope(v));
}

} // verus!
