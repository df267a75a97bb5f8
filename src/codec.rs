use vstd::prelude::*;
use byteorder::{BigEndian, ByteOrder, ReadBytesExt};
use bytes::BufMut;
use rlp::{Rlp, RlpStream};
use vstd::slice::slice_subrange;

verus! {

/// The value of a big-endian byte string.
pub open spec fn be_value(s: Seq<u8>) -> nat
    decreases s.len(),
{
    if s.len() == 0 {
        0
    } else {
        be_value(s.drop_last()) * 256 + s.last() as nat
    }
}

/// The `n` low-order bytes of `v`, most significant first.
pub open spec fn be_bytes(v: nat, n: nat) -> Seq<u8>
    decreases n,
{
    if n == 0 {
        Seq::empty()
    } else {
        be_bytes(v / 256, (n - 1) as nat).push((v % 256) as u8)
    }
}

pub open spec fn pow256(n: nat) -> nat
    decreases n,
{
    if n == 0 {
        1
    } else {
        256 * pow256((n - 1) as nat)
    }
}

pub proof fn lemma_be_bytes_len(v: nat, n: nat)
    ensures
        be_bytes(v, n).len() == n,
    decreases n,
{
    if n > 0 {
        lemma_be_bytes_len(v / 256, (n - 1) as nat);
    }
}

/// Reading back the `n` bytes of a value below `256^n` gives the value.
pub proof fn lemma_be_value_of_bytes(v: nat, n: nat)
    requires
        v < pow256(n),
    ensures
        be_value(be_bytes(v, n)) == v,
    decreases n,
{
    if n > 0 {
        let p = pow256((n - 1) as nat);
        assert(v / 256 < p) by (nonlinear_arith)
            requires
                v < 256 * p,
        ;
        lemma_be_value_of_bytes(v / 256, (n - 1) as nat);
        let s = be_bytes(v / 256, (n - 1) as nat);
        assert(be_bytes(v, n).drop_last() =~= s);
        assert((v / 256) * 256 + v % 256 == v) by (nonlinear_arith);
    }
}

/// Relies on `byteorder::BigEndian::write_u64`: the eight bytes of `v`,
/// most significant first.
#[verifier::external_body]
fn be_u64_bytes(v: u64) -> (r: Vec<u8>)
    ensures
        r@ == be_bytes(v as nat, 8),
{
    let mut buf = [0u8; 8];
    BigEndian::write_u64(&mut buf, v);
    buf.to_vec()
}

/// Relies on `byteorder::BigEndian::write_u32`: the four bytes of `v`,
/// most significant first.
#[verifier::external_body]
fn be_u32_bytes(v: u32) -> (r: Vec<u8>)
    ensures
        r@ == be_bytes(v as nat, 4),
{
    let mut buf = [0u8; 4];
    BigEndian::write_u32(&mut buf, v);
    buf.to_vec()
}

/// Relies on `byteorder::ReadBytesExt::read_u64::<BigEndian>` over a byte
/// slice: it reads the first eight bytes, and fails when there are fewer.
#[verifier::external_body]
fn read_be_u64(b: &[u8]) -> (r: Option<u64>)
    ensures
        b@.len() < 8 ==> r is None,
        b@.len() >= 8 ==> r is Some && r->0 as nat == be_value(b@.subrange(0, 8)),
{
    let mut rd: &[u8] = b;
    rd.read_u64::<BigEndian>().ok()
}

/// Relies on `byteorder::ReadBytesExt::read_u32::<BigEndian>` over a byte
/// slice: it reads the first four bytes, and fails when there are fewer.
#[verifier::external_body]
fn read_be_u32(b: &[u8]) -> (r: Option<u32>)
    ensures
        b@.len() < 4 ==> r is None,
        b@.len() >= 4 ==> r is Some && r->0 as nat == be_value(b@.subrange(0, 4)),
{
    let mut rd: &[u8] = b;
    rd.read_u32::<BigEndian>().ok()
}

/// Number of headers a peer is asked for by default.
pub const REQUEST_SIZE: u32 = 64;

/// What a sync message asks or answers.
#[derive(PartialEq, Eq, Structural, Clone, Copy, Debug)]
pub enum Action {
    HeadersReq,
    HeadersRes,
}

/// A sync message: its action, the byte length of its body, and the body.
/// The protocol version and module tags are the same for every message of
/// this subsystem and are added by the transport.
pub struct Envelope {
    pub action: Action,
    pub len: u32,
    pub body: Vec<u8>,
}

/// A request for `count` consecutive headers starting at block `from`.
#[derive(PartialEq, Eq, Structural, Clone, Copy, Debug)]
pub struct HeadersRequest {
    pub from: u64,
    pub count: u32,
}

/// Wire form of a header request: `from` in eight bytes, then `count` in
/// four bytes, both big-endian.
pub open spec fn request_body(from: nat, count: nat) -> Seq<u8> {
    be_bytes(from, 8) + be_bytes(count, 4)
}

/// The `from` a request body carries; 1 when the body is too short.
pub open spec fn decoded_from(b: Seq<u8>) -> nat {
    if b.len() >= 8 {
        be_value(b.subrange(0, 8))
    } else {
        1
    }
}

/// The `count` a request body carries; 1 when the body is too short.
pub open spec fn decoded_count(b: Seq<u8>) -> nat {
    if b.len() >= 12 {
        be_value(b.subrange(8, 12))
    } else {
        1
    }
}

/// Relies on `bytes::BufMut::put_slice` for `Vec<u8>`: appends `s`.
#[verifier::external_body]
fn put_bytes(v: &mut Vec<u8>, s: &[u8])
    ensures
        final(v)@ == old(v)@ + s@,
{
    v.put_slice(s);
}

/// The body of a request for `count` headers from block `from`.
pub fn encode_request(from: u64, count: u32) -> (r: Vec<u8>)
    ensures
        r@ == request_body(from as nat, count as nat),
        r@.len() == 12,
{
    let mut body: Vec<u8> = Vec::new();
    let f = be_u64_bytes(from);
    put_bytes(&mut body, f.as_slice());
    let c = be_u32_bytes(count);
    put_bytes(&mut body, c.as_slice());
    proof {
        lemma_be_bytes_len(from as nat, 8);
        lemma_be_bytes_len(count as nat, 4);
    }
    body
}

/// Reads a request body. A body too short for a field leaves that field at
/// 1 instead of failing.
pub fn decode_request(body: &[u8]) -> (r: HeadersRequest)
    ensures
        r.from as nat == decoded_from(body@),
        r.count as nat == decoded_count(body@),
{
    let from = match read_be_u64(body) {
        Some(v) => v,
        None => 1,
    };
    let count = if body.len() >= 8 {
        let rest = slice_subrange(body, 8, body.len());
        assert(body@.len() >= 12 ==> rest@.subrange(0, 4) =~= body@.subrange(8, 12));
        match read_be_u32(rest) {
            Some(v) => v,
            None => 1,
        }
    } else {
        1
    };
    HeadersRequest { from, count }
}

/// The message that asks a peer for `count` headers from block `from`.
pub fn headers_request(from: u64, count: u32) -> (r: Envelope)
    ensures
        r.action == Action::HeadersReq,
        r.body@ == request_body(from as nat, count as nat),
        r.len == 12,
{
    let body = encode_request(from, count);
    Envelope { action: Action::HeadersReq, len: body.len() as u32, body }
}

/// The message that asks a peer for the default number of headers from
/// block `start`.
pub fn send(start: u64) -> (r: Envelope)
    ensures
        r.action == Action::HeadersReq,
        r.body@ == request_body(start as nat, REQUEST_SIZE as nat),
        r.len == 12,
{
    headers_request(start, REQUEST_SIZE)
}

/// Decoding an encoded request gives back its `from` and `count`.
pub proof fn lemma_request_round_trip(from: u64, count: u32)
    ensures
        decoded_from(request_body(from as nat, count as nat)) == from,
        decoded_count(request_body(from as nat, count as nat)) == count,
{
    let b = request_body(from as nat, count as nat);
    lemma_be_bytes_len(from as nat, 8);
    lemma_be_bytes_len(count as nat, 4);
    reveal_with_fuel(pow256, 9);
    assert(pow256(4) == 0x1_0000_0000);
    assert(pow256(8) == 0x1_0000_0000_0000_0000);
    lemma_be_value_of_bytes(from as nat, 8);
    lemma_be_value_of_bytes(count as nat, 4);
    assert(b.subrange(0, 8) =~= be_bytes(from as nat, 8));
    assert(b.subrange(8, 12) =~= be_bytes(count as nat, 4));
}

/// Number of bytes in the shortest big-endian form of `n`.
pub open spec fn byte_len(n: nat) -> nat
    decreases n,
{
    if n == 0 {
        0
    } else {
        1 + byte_len(n / 256)
    }
}

proof fn lemma_byte_len_bound(n: nat, k: nat)
    requires
        n < pow256(k),
    ensures
        byte_len(n) <= k,
    decreases k,
{
    if n > 0 && k > 0 {
        let p = pow256((k - 1) as nat);
        assert(n / 256 < p) by (nonlinear_arith)
            requires
                n < 256 * p,
        ;
        lemma_byte_len_bound(n / 256, (k - 1) as nat);
    }
}

/// The RLP header of a list whose payload is `n` bytes long.
pub open spec fn rlp_list_prefix(n: nat) -> Seq<u8> {
    if n <= 55 {
        seq![(0xc0 + n) as u8]
    } else {
        seq![(0xf7 + byte_len(n)) as u8] + be_bytes(n, byte_len(n))
    }
}

/// What the RLP items of a list are, each in its raw encoding.
pub uninterp spec fn rlp_items_of(body: Seq<u8>) -> Seq<Seq<u8>>;

/// Relies on `rlp::RlpStream` (`new_list`, `append_raw`, `as_raw`): a list
/// of `count` items whose encodings, already concatenated, are `data`.
/// The length of the payload is written as a `u32`, hence the bound.
#[verifier::external_body]
fn rlp_list(data: &[u8], count: usize) -> (r: Vec<u8>)
    requires
        count >= 1,
        data@.len() < 0x1_0000_0000,
    ensures
        r@ == rlp_list_prefix(data@.len()) + data@,
{
    let mut stream = RlpStream::new_list(count);
    stream.append_raw(data, count);
    stream.as_raw().to_vec()
}

/// Relies on `rlp::Rlp::iter`: the raw encodings of the items of the list
/// in `body`, up to the first that cannot be read. A body that is not a
/// list has none.
#[verifier::external_body]
fn rlp_list_items(body: &[u8]) -> (r: Vec<Vec<u8>>)
    ensures
        r@.len() == rlp_items_of(body@).len(),
        forall|i: int| 0 <= i < r@.len() ==> #[trigger] r@[i]@ == rlp_items_of(body@)[i],
        body@.len() == 0 ==> r@.len() == 0,
{
    Rlp::new(body).iter().map(|item| item.as_raw().to_vec()).collect()
}

/// How many headers a request asks of a chain whose head is `best`: up to
/// `count` from `from`, none past the head.
pub open spec fn span_of(req: HeadersRequest, best: u64) -> nat {
    if req.from > best {
        0
    } else if req.count as int <= best - req.from + 1 {
        req.count as nat
    } else {
        (best - req.from + 1) as nat
    }
}

/// Number of headers to look up for `req`: the blocks `req.from`,
/// `req.from + 1`, ... below this bound, on a chain whose head is `best`.
pub fn response_len(req: HeadersRequest, best: u64) -> (n: u64)
    ensures
        n as nat == span_of(req, best),
{
    if req.from > best {
        0
    } else if req.count as u64 <= best - req.from {
        req.count as u64
    } else {
        best - req.from + 1
    }
}

/// The headers of `found` that were there, concatenated in order.
pub open spec fn found_payload(found: Seq<Option<Vec<u8>>>) -> Seq<u8>
    decreases found.len(),
{
    if found.len() == 0 {
        Seq::empty()
    } else {
        found_payload(found.drop_last()) + match found.last() {
            Some(h) => h@,
            None => Seq::empty(),
        }
    }
}

/// How many headers of `found` were there.
pub open spec fn found_count(found: Seq<Option<Vec<u8>>>) -> nat
    decreases found.len(),
{
    if found.len() == 0 {
        0
    } else {
        found_count(found.drop_last()) + if found.last() is Some {
            1nat
        } else {
            0nat
        }
    }
}

/// Body of the answer to a header request: the RLP list of the headers
/// that were found, or nothing when none was.
pub open spec fn response_body(found: Seq<Option<Vec<u8>>>) -> Seq<u8> {
    if found_count(found) == 0 {
        Seq::empty()
    } else {
        rlp_list_prefix(found_payload(found).len()) + found_payload(found)
    }
}

/// The answer to a header request, from the results of looking up each
/// requested block in turn (`None` where the lookup failed).
pub fn receive_req(found: &Vec<Option<Vec<u8>>>) -> (r: Envelope)
    requires
        found_payload(found@).len() + 5 <= u32::MAX,
    ensures
        r.action == Action::HeadersRes,
        r.body@ == response_body(found@),
        r.len as nat == r.body@.len(),
{
    let mut data: Vec<u8> = Vec::new();
    let mut count: usize = 0;
    let mut i: usize = 0;
    while i < found.len()
        invariant
            i <= found@.len(),
            data@ == found_payload(found@.subrange(0, i as int)),
            count as nat == found_count(found@.subrange(0, i as int)),
            count <= i,
        decreases found@.len() - i,
    {
        let ghost prev = found@.subrange(0, i as int);
        assert(found@.subrange(0, i + 1).drop_last() =~= prev);
        match &found[i] {
            Some(h) => {
                put_bytes(&mut data, h.as_slice());
                count = count + 1;
            },
            None => {},
        }
        i = i + 1;
    }
    assert(found@.subrange(0, found@.len() as int) =~= found@);
    let mut body: Vec<u8> = Vec::new();
    if count > 0 {
        let list = rlp_list(data.as_slice(), count);
        proof {
            let n = data@.len();
            if n > 55 {
                reveal_with_fuel(pow256, 5);
                lemma_byte_len_bound(n, 4);
                lemma_be_bytes_len(n, byte_len(n));
            }
        }
        put_bytes(&mut body, list.as_slice());
    }
    assert(body@ =~= response_body(found@));
    Envelope { action: Action::HeadersRes, len: body.len() as u32, body }
}

/// The raw encodings of the items of a header response, in order.
pub fn decode_response(body: &[u8]) -> (r: Vec<Vec<u8>>)
    ensures
        r@.len() == rlp_items_of(body@).len(),
        forall|i: int| 0 <= i < r@.len() ==> #[trigger] r@[i]@ == rlp_items_of(body@)[i],
        body@.len() == 0 ==> r@.len() == 0,
{
    rlp_list_items(body)
}

} // verus!
