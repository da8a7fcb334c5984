//! Canonical byte form of the wire types.
//!
//! Storage keys are encoded [`JobId`]s and storage values are encoded
//! [`Dataflow`]s. Every field is written in a fixed little-endian,
//! length-prefixed layout, so the encoding is deterministic: equal values
//! give equal bytes. Decoding is proved to invert encoding exactly
//! ([`lemma_dataflow_round_trip`], [`lemma_job_id_round_trip`]), which also
//! makes the encoding injective ([`lemma_enc_job_id_injective`]).

use vstd::prelude::*;
use vstd::bytes::*;
use vstd::slice::{slice_subrange, slice_to_vec};
use vstd::string::StrSliceExecFns;
use vstd::utf8::{
    valid_utf8, decode_utf8, encode_utf8, encode_utf8_valid_utf8, encode_utf8_decode_utf8,
};
use crate::types::{
    Dataflow, DataflowView, Edge, HostAddr, HostAddrView, JobId, JobIdView, OperatorSpec,
    OperatorSpecView,
};

verus! {

// ---------------------------------------------------------------------------
// Specification: encoding
// ---------------------------------------------------------------------------

/// Byte form of a length-prefixed byte string.
pub open spec fn enc_bytes(b: Seq<u8>) -> Seq<u8> {
    spec_u64_to_le_bytes(b.len() as u64) + b
}

/// Byte form of a character string: its UTF-8 bytes, length-prefixed.
pub open spec fn enc_chars(s: Seq<char>) -> Seq<u8> {
    enc_bytes(encode_utf8(s))
}

/// Byte form of a job identifier: namespace, then name.
pub open spec fn enc_job_id(j: JobIdView) -> Seq<u8> {
    enc_chars(j.namespace) + enc_chars(j.name)
}

/// Byte form of an optional job identifier: a presence tag, then the value.
pub open spec fn enc_opt_job_id(j: Option<JobIdView>) -> Seq<u8> {
    match j {
        Option::None => seq![0u8],
        Option::Some(j) => seq![1u8] + enc_job_id(j),
    }
}

/// Byte form of a host address: host string, then port.
pub open spec fn enc_addr(a: HostAddrView) -> Seq<u8> {
    enc_chars(a.host) + spec_u16_to_le_bytes(a.port)
}

/// Byte form of an optional host address.
pub open spec fn enc_opt_addr(a: Option<HostAddrView>) -> Seq<u8> {
    match a {
        Option::None => seq![0u8],
        Option::Some(a) => seq![1u8] + enc_addr(a),
    }
}

/// Byte form of one operator: executor id, payload, placement.
pub open spec fn enc_op(o: OperatorSpecView) -> Seq<u8> {
    spec_u32_to_le_bytes(o.executor_id) + enc_bytes(o.payload) + enc_opt_addr(o.host_addr)
}

/// Byte form of a sequence of operators, in order.
pub open spec fn enc_ops(s: Seq<OperatorSpecView>) -> Seq<u8>
    decreases s.len(),
{
    if s.len() == 0 {
        Seq::empty()
    } else {
        enc_op(s[0]) + enc_ops(s.drop_first())
    }
}

/// Byte form of one edge: source id, then target id.
pub open spec fn enc_edge(e: Edge) -> Seq<u8> {
    spec_u32_to_le_bytes(e.from_id) + spec_u32_to_le_bytes(e.to_id)
}

/// Byte form of a sequence of edges, in order.
pub open spec fn enc_edges(s: Seq<Edge>) -> Seq<u8>
    decreases s.len(),
{
    if s.len() == 0 {
        Seq::empty()
    } else {
        enc_edge(s[0]) + enc_edges(s.drop_first())
    }
}

/// Byte form of a whole dataflow.
pub open spec fn enc_dataflow(d: DataflowView) -> Seq<u8> {
    enc_opt_job_id(d.job_id) + spec_u64_to_le_bytes(d.nodes.len() as u64) + enc_ops(d.nodes)
        + spec_u64_to_le_bytes(d.edges.len() as u64) + enc_edges(d.edges)
}

// ---------------------------------------------------------------------------
// Specification: which values the format can carry
// ---------------------------------------------------------------------------

/// A string whose UTF-8 form fits the length prefix.
pub open spec fn encodable_chars(s: Seq<char>) -> bool {
    encode_utf8(s).len() <= u64::MAX
}

pub open spec fn encodable_job_id(j: JobIdView) -> bool {
    encodable_chars(j.namespace) && encodable_chars(j.name)
}

pub open spec fn encodable_opt_job_id(j: Option<JobIdView>) -> bool {
    match j {
        Option::None => true,
        Option::Some(j) => encodable_job_id(j),
    }
}

pub open spec fn encodable_addr(a: HostAddrView) -> bool {
    encodable_chars(a.host)
}

pub open spec fn encodable_opt_addr(a: Option<HostAddrView>) -> bool {
    match a {
        Option::None => true,
        Option::Some(a) => encodable_addr(a),
    }
}

pub open spec fn encodable_op(o: OperatorSpecView) -> bool {
    o.payload.len() <= u64::MAX && encodable_opt_addr(o.host_addr)
}

pub open spec fn encodable_dataflow(d: DataflowView) -> bool {
    &&& encodable_opt_job_id(d.job_id)
    &&& d.nodes.len() <= u64::MAX
    &&& d.edges.len() <= u64::MAX
    &&& forall|i: int| 0 <= i < d.nodes.len() ==> encodable_op(#[trigger] d.nodes[i])
}

// ---------------------------------------------------------------------------
// Specification: decoding
// ---------------------------------------------------------------------------

pub open spec fn dec_u8(b: Seq<u8>, pos: int) -> Option<(u8, int)> {
    if 0 <= pos && pos + 1 <= b.len() {
        Option::Some((b[pos], pos + 1))
    } else {
        Option::None
    }
}

pub open spec fn dec_u16(b: Seq<u8>, pos: int) -> Option<(u16, int)> {
    if 0 <= pos && pos + 2 <= b.len() {
        Option::Some((spec_u16_from_le_bytes(b.subrange(pos, pos + 2)), pos + 2))
    } else {
        Option::None
    }
}

pub open spec fn dec_u32(b: Seq<u8>, pos: int) -> Option<(u32, int)> {
    if 0 <= pos && pos + 4 <= b.len() {
        Option::Some((spec_u32_from_le_bytes(b.subrange(pos, pos + 4)), pos + 4))
    } else {
        Option::None
    }
}

pub open spec fn dec_u64(b: Seq<u8>, pos: int) -> Option<(u64, int)> {
    if 0 <= pos && pos + 8 <= b.len() {
        Option::Some((spec_u64_from_le_bytes(b.subrange(pos, pos + 8)), pos + 8))
    } else {
        Option::None
    }
}

pub open spec fn dec_bytes(b: Seq<u8>, pos: int) -> Option<(Seq<u8>, int)> {
    match dec_u64(b, pos) {
        Option::None => Option::None,
        Option::Some((n, p)) => if p + n <= b.len() {
            Option::Some((b.subrange(p, p + n), p + n))
        } else {
            Option::None
        },
    }
}

pub open spec fn dec_chars(b: Seq<u8>, pos: int) -> Option<(Seq<char>, int)> {
    match dec_bytes(b, pos) {
        Option::None => Option::None,
        Option::Some((bs, p)) => if valid_utf8(bs) {
            Option::Some((decode_utf8(bs), p))
        } else {
            Option::None
        },
    }
}

pub open spec fn dec_job_id(b: Seq<u8>, pos: int) -> Option<(JobIdView, int)> {
    match dec_chars(b, pos) {
        Option::None => Option::None,
        Option::Some((ns, p1)) => match dec_chars(b, p1) {
            Option::None => Option::None,
            Option::Some((nm, p2)) => Option::Some(
                (JobIdView { namespace: ns, name: nm }, p2),
            ),
        },
    }
}

pub open spec fn dec_opt_job_id(b: Seq<u8>, pos: int) -> Option<(Option<JobIdView>, int)> {
    match dec_u8(b, pos) {
        Option::None => Option::None,
        Option::Some((tag, p)) => if tag == 0 {
            Option::Some((Option::None, p))
        } else if tag == 1 {
            match dec_job_id(b, p) {
                Option::None => Option::None,
                Option::Some((j, p2)) => Option::Some((Option::Some(j), p2)),
            }
        } else {
            Option::None
        },
    }
}

pub open spec fn dec_addr(b: Seq<u8>, pos: int) -> Option<(HostAddrView, int)> {
    match dec_chars(b, pos) {
        Option::None => Option::None,
        Option::Some((h, p1)) => match dec_u16(b, p1) {
            Option::None => Option::None,
            Option::Some((port, p2)) => Option::Some((HostAddrView { host: h, port }, p2)),
        },
    }
}

pub open spec fn dec_opt_addr(b: Seq<u8>, pos: int) -> Option<(Option<HostAddrView>, int)> {
    match dec_u8(b, pos) {
        Option::None => Option::None,
        Option::Some((tag, p)) => if tag == 0 {
            Option::Some((Option::None, p))
        } else if tag == 1 {
            match dec_addr(b, p) {
                Option::None => Option::None,
                Option::Some((a, p2)) => Option::Some((Option::Some(a), p2)),
            }
        } else {
            Option::None
        },
    }
}

pub open spec fn dec_op(b: Seq<u8>, pos: int) -> Option<(OperatorSpecView, int)> {
    match dec_u32(b, pos) {
        Option::None => Option::None,
        Option::Some((id, p1)) => match dec_bytes(b, p1) {
            Option::None => Option::None,
            Option::Some((payload, p2)) => match dec_opt_addr(b, p2) {
                Option::None => Option::None,
                Option::Some((addr, p3)) => Option::Some(
                    (OperatorSpecView { executor_id: id, payload, host_addr: addr }, p3),
                ),
            },
        },
    }
}

pub open spec fn dec_ops(b: Seq<u8>, pos: int, count: int) -> Option<(Seq<OperatorSpecView>, int)>
    decreases count,
{
    if count <= 0 {
        Option::Some((Seq::empty(), pos))
    } else {
        match dec_op(b, pos) {
            Option::None => Option::None,
            Option::Some((o, p)) => match dec_ops(b, p, count - 1) {
                Option::None => Option::None,
                Option::Some((os, p2)) => Option::Some((seq![o] + os, p2)),
            },
        }
    }
}

pub open spec fn dec_edge(b: Seq<u8>, pos: int) -> Option<(Edge, int)> {
    match dec_u32(b, pos) {
        Option::None => Option::None,
        Option::Some((f, p1)) => match dec_u32(b, p1) {
            Option::None => Option::None,
            Option::Some((t, p2)) => Option::Some((Edge { from_id: f, to_id: t }, p2)),
        },
    }
}

pub open spec fn dec_edges(b: Seq<u8>, pos: int, count: int) -> Option<(Seq<Edge>, int)>
    decreases count,
{
    if count <= 0 {
        Option::Some((Seq::empty(), pos))
    } else {
        match dec_edge(b, pos) {
            Option::None => Option::None,
            Option::Some((e, p)) => match dec_edges(b, p, count - 1) {
                Option::None => Option::None,
                Option::Some((es, p2)) => Option::Some((seq![e] + es, p2)),
            },
        }
    }
}

pub open spec fn dec_dataflow(b: Seq<u8>, pos: int) -> Option<(DataflowView, int)> {
    match dec_opt_job_id(b, pos) {
        Option::None => Option::None,
        Option::Some((j, p1)) => match dec_u64(b, p1) {
            Option::None => Option::None,
            Option::Some((nn, p2)) => match dec_ops(b, p2, nn as int) {
                Option::None => Option::None,
                Option::Some((ns, p3)) => match dec_u64(b, p3) {
                    Option::None => Option::None,
                    Option::Some((ne, p4)) => match dec_edges(b, p4, ne as int) {
                        Option::None => Option::None,
                        Option::Some((es, p5)) => Option::Some(
                            (DataflowView { job_id: j, nodes: ns, edges: es }, p5),
                        ),
                    },
                },
            },
        },
    }
}

/// Decoding a whole buffer: the value must consume every byte.
pub open spec fn dec_job_id_full(b: Seq<u8>) -> Option<JobIdView> {
    match dec_job_id(b, 0) {
        Option::Some((j, p)) => if p == b.len() {
            Option::Some(j)
        } else {
            Option::None
        },
        Option::None => Option::None,
    }
}

/// Decoding a whole buffer: the value must consume every byte.
pub open spec fn dec_dataflow_full(b: Seq<u8>) -> Option<DataflowView> {
    match dec_dataflow(b, 0) {
        Option::Some((d, p)) => if p == b.len() {
            Option::Some(d)
        } else {
            Option::None
        },
        Option::None => Option::None,
    }
}

// ---------------------------------------------------------------------------
// Executable encoders
// ---------------------------------------------------------------------------

fn push_u16(out: &mut Vec<u8>, x: u16)
    ensures
        final(out)@ == old(out)@ + spec_u16_to_le_bytes(x),
{
    let mut bs = u16_to_le_bytes(x);
    out.append(&mut bs);
}

fn push_u32(out: &mut Vec<u8>, x: u32)
    ensures
        final(out)@ == old(out)@ + spec_u32_to_le_bytes(x),
{
    let mut bs = u32_to_le_bytes(x);
    out.append(&mut bs);
}

fn push_u64(out: &mut Vec<u8>, x: u64)
    ensures
        final(out)@ == old(out)@ + spec_u64_to_le_bytes(x),
{
    let mut bs = u64_to_le_bytes(x);
    out.append(&mut bs);
}

fn push_bytes(out: &mut Vec<u8>, b: &Vec<u8>)
    ensures
        final(out)@ == old(out)@ + enc_bytes(b@),
        b@.len() <= u64::MAX,
{
    let n = b.len();
    push_u64(out, n as u64);
    let mut copy = b.clone();
    out.append(&mut copy);
}

fn push_chars(out: &mut Vec<u8>, s: &String)
    ensures
        final(out)@ == old(out)@ + enc_chars(s@),
        encodable_chars(s@),
{
    let bs = s.as_str().as_bytes_vec();
    push_bytes(out, &bs);
}

fn push_job_id(out: &mut Vec<u8>, j: &JobId)
    ensures
        final(out)@ == old(out)@ + enc_job_id(j@),
        encodable_job_id(j@),
{
    push_chars(out, &j.namespace);
    push_chars(out, &j.name);
}

fn push_opt_job_id(out: &mut Vec<u8>, j: &Option<JobId>)
    ensures
        final(out)@ == old(out)@ + enc_opt_job_id(match j {
            Option::Some(j) => Option::Some(j@),
            Option::None => Option::None,
        }),
        encodable_opt_job_id(match j {
            Option::Some(j) => Option::Some(j@),
            Option::None => Option::None,
        }),
{
    match j {
        Option::None => {
            out.push(0u8);
            assert(final(out)@ =~= old(out)@ + seq![0u8]);
        },
        Option::Some(j) => {
            out.push(1u8);
            push_job_id(out, j);
            assert(final(out)@ =~= old(out)@ + (seq![1u8] + enc_job_id(j@)));
        },
    }
}

fn push_addr(out: &mut Vec<u8>, a: &HostAddr)
    ensures
        final(out)@ == old(out)@ + enc_addr(a@),
        encodable_addr(a@),
{
    push_chars(out, &a.host);
    push_u16(out, a.port);
}

fn push_opt_addr(out: &mut Vec<u8>, a: &Option<HostAddr>)
    ensures
        final(out)@ == old(out)@ + enc_opt_addr(match a {
            Option::Some(a) => Option::Some(a@),
            Option::None => Option::None,
        }),
        encodable_opt_addr(match a {
            Option::Some(a) => Option::Some(a@),
            Option::None => Option::None,
        }),
{
    match a {
        Option::None => {
            out.push(0u8);
            assert(final(out)@ =~= old(out)@ + seq![0u8]);
        },
        Option::Some(a) => {
            out.push(1u8);
            push_addr(out, a);
            assert(final(out)@ =~= old(out)@ + (seq![1u8] + enc_addr(a@)));
        },
    }
}

fn push_op(out: &mut Vec<u8>, o: &OperatorSpec)
    ensures
        final(out)@ == old(out)@ + enc_op(o@),
        encodable_op(o@),
{
    push_u32(out, o.executor_id);
    push_bytes(out, &o.payload);
    push_opt_addr(out, &o.host_addr);
}

fn push_edge(out: &mut Vec<u8>, e: &Edge)
    ensures
        final(out)@ == old(out)@ + enc_edge(*e),
{
    push_u32(out, e.from_id);
    push_u32(out, e.to_id);
}

proof fn lemma_enc_ops_snoc(s: Seq<OperatorSpecView>, o: OperatorSpecView)
    ensures
        enc_ops(s.push(o)) == enc_ops(s) + enc_op(o),
    decreases s.len(),
{
    if s.len() == 0 {
        assert(s.push(o)[0] == o);
        assert(s.push(o).drop_first() =~= Seq::<OperatorSpecView>::empty());
        assert(enc_ops(Seq::<OperatorSpecView>::empty()) == Seq::<u8>::empty());
        assert(enc_ops(s.push(o)) == enc_op(o) + Seq::<u8>::empty());
        assert(enc_op(o) + Seq::<u8>::empty() =~= Seq::<u8>::empty() + enc_op(o));
        assert(enc_ops(s) == Seq::<u8>::empty());
    } else {
        assert(s.push(o).drop_first() =~= s.drop_first().push(o));
        lemma_enc_ops_snoc(s.drop_first(), o);
        assert(enc_ops(s.push(o)) == enc_op(s[0]) + (enc_ops(s.drop_first()) + enc_op(o)));
        assert(enc_op(s[0]) + (enc_ops(s.drop_first()) + enc_op(o)) =~= enc_ops(s) + enc_op(o));
    }
}

proof fn lemma_enc_edges_snoc(s: Seq<Edge>, e: Edge)
    ensures
        enc_edges(s.push(e)) == enc_edges(s) + enc_edge(e),
    decreases s.len(),
{
    if s.len() == 0 {
        assert(s.push(e)[0] == e);
        assert(s.push(e).drop_first() =~= Seq::<Edge>::empty());
        assert(enc_edges(Seq::<Edge>::empty()) == Seq::<u8>::empty());
        assert(enc_edges(s.push(e)) == enc_edge(e) + Seq::<u8>::empty());
        assert(enc_edge(e) + Seq::<u8>::empty() =~= Seq::<u8>::empty() + enc_edge(e));
        assert(enc_edges(s) == Seq::<u8>::empty());
    } else {
        assert(s.push(e).drop_first() =~= s.drop_first().push(e));
        lemma_enc_edges_snoc(s.drop_first(), e);
        assert(enc_edges(s.push(e)) == enc_edge(s[0]) + (enc_edges(s.drop_first()) + enc_edge(e)));
        assert(enc_edge(s[0]) + (enc_edges(s.drop_first()) + enc_edge(e)) =~= enc_edges(s) + enc_edge(e));
    }
}

/// Canonical byte form of a job identifier, used as the storage key.
pub fn encode_job_id(job_id: &JobId) -> (r: Vec<u8>)
    ensures
        r@ == enc_job_id(job_id@),
        encodable_job_id(job_id@),
{
    let mut out: Vec<u8> = Vec::new();
    push_job_id(&mut out, job_id);
    proof {
        assert(out@ =~= enc_job_id(job_id@));
    }
    out
}

/// Canonical byte form of a dataflow, used as the storage value.
pub fn encode_dataflow(df: &Dataflow) -> (r: Vec<u8>)
    ensures
        r@ == enc_dataflow(df@),
        encodable_dataflow(df@),
{
    let mut out: Vec<u8> = Vec::new();
    push_opt_job_id(&mut out, &df.job_id);
    let ghost pre_nodes = out@;
    push_u64(&mut out, df.nodes.len() as u64);
    let ghost nodes_view = df.nodes@.map_values(|o: OperatorSpec| o@);
    let mut i: usize = 0;
    while i < df.nodes.len()
        invariant
            i <= df.nodes.len(),
            nodes_view == df.nodes@.map_values(|o: OperatorSpec| o@),
            nodes_view.len() == df.nodes@.len(),
            out@ == pre_nodes + spec_u64_to_le_bytes(df.nodes@.len() as u64)
                + enc_ops(nodes_view.take(i as int)),
            forall|k: int| 0 <= k < i ==> encodable_op(#[trigger] nodes_view[k]),
        decreases df.nodes.len() - i,
    {
        let ghost before = out@;
        push_op(&mut out, &df.nodes[i]);
        proof {
            assert(nodes_view[i as int] == df.nodes@[i as int]@);
            lemma_enc_ops_snoc(nodes_view.take(i as int), nodes_view[i as int]);
            assert(nodes_view.take(i as int).push(nodes_view[i as int]) =~= nodes_view.take(
                i as int + 1,
            ));
            assert(out@ =~= pre_nodes + spec_u64_to_le_bytes(df.nodes@.len() as u64) + enc_ops(
                nodes_view.take(i as int + 1),
            ));
        }
        i += 1;
    }
    proof {
        assert(nodes_view.take(nodes_view.len() as int) =~= nodes_view);
    }
    let ghost pre_edges = out@;
    push_u64(&mut out, df.edges.len() as u64);
    let mut j: usize = 0;
    while j < df.edges.len()
        invariant
            j <= df.edges.len(),
            out@ == pre_edges + spec_u64_to_le_bytes(df.edges@.len() as u64)
                + enc_edges(df.edges@.take(j as int)),
        decreases df.edges.len() - j,
    {
        push_edge(&mut out, &df.edges[j]);
        proof {
            lemma_enc_edges_snoc(df.edges@.take(j as int), df.edges@[j as int]);
            assert(df.edges@.take(j as int).push(df.edges@[j as int]) =~= df.edges@.take(
                j as int + 1,
            ));
            assert(out@ =~= pre_edges + spec_u64_to_le_bytes(df.edges@.len() as u64) + enc_edges(
                df.edges@.take(j as int + 1),
            ));
        }
        j += 1;
    }
    proof {
        assert(df.edges@.take(df.edges@.len() as int) =~= df.edges@);
        assert(out@ =~= enc_dataflow(df@));
    }
    out
}


// ---------------------------------------------------------------------------
// Executable decoders
// ---------------------------------------------------------------------------

/// Relies on std's String::from_utf8: it succeeds exactly on valid UTF-8
/// input, and the returned string's UTF-8 bytes are the input bytes.
#[verifier::external_body]
fn string_from_utf8(bytes: Vec<u8>) -> (r: Option<String>)
    ensures
        r is Some <==> valid_utf8(bytes@),
        r matches Some(s) ==> encode_utf8(s@) == bytes@,
{
    String::from_utf8(bytes).ok()
}

fn decode_u8_at(v: &Vec<u8>, pos: usize) -> (r: Option<(u8, usize)>)
    ensures
        r is Some <==> dec_u8(v@, pos as int) is Some,
        r matches Some((x, p)) ==> dec_u8(v@, pos as int) == Some((x, p as int)),
{
    if pos < v.len() {
        Some((v[pos], pos + 1))
    } else {
        None
    }
}

fn decode_u16_at(v: &Vec<u8>, pos: usize) -> (r: Option<(u16, usize)>)
    ensures
        r is Some <==> dec_u16(v@, pos as int) is Some,
        r matches Some((x, p)) ==> dec_u16(v@, pos as int) == Some((x, p as int)),
{
    if pos <= v.len() && v.len() - pos >= 2 {
        let s = slice_subrange(v.as_slice(), pos, pos + 2);
        Some((u16_from_le_bytes(s), pos + 2))
    } else {
        None
    }
}

fn decode_u32_at(v: &Vec<u8>, pos: usize) -> (r: Option<(u32, usize)>)
    ensures
        r is Some <==> dec_u32(v@, pos as int) is Some,
        r matches Some((x, p)) ==> dec_u32(v@, pos as int) == Some((x, p as int)),
{
    if pos <= v.len() && v.len() - pos >= 4 {
        let s = slice_subrange(v.as_slice(), pos, pos + 4);
        Some((u32_from_le_bytes(s), pos + 4))
    } else {
        None
    }
}

fn decode_u64_at(v: &Vec<u8>, pos: usize) -> (r: Option<(u64, usize)>)
    ensures
        r is Some <==> dec_u64(v@, pos as int) is Some,
        r matches Some((x, p)) ==> dec_u64(v@, pos as int) == Some((x, p as int)),
{
    if pos <= v.len() && v.len() - pos >= 8 {
        let s = slice_subrange(v.as_slice(), pos, pos + 8);
        Some((u64_from_le_bytes(s), pos + 8))
    } else {
        None
    }
}

fn decode_bytes_at(v: &Vec<u8>, pos: usize) -> (r: Option<(Vec<u8>, usize)>)
    ensures
        r is Some <==> dec_bytes(v@, pos as int) is Some,
        r matches Some((bs, p)) ==> dec_bytes(v@, pos as int) == Some((bs@, p as int)),
{
    match decode_u64_at(v, pos) {
        None => None,
        Some((n, p)) => {
            let rem = v.len() - p;
            if n <= rem as u64 {
                let nn = n as usize;
                assert(nn as int == n as int);
                let s = slice_subrange(v.as_slice(), p, p + nn);
                Some((slice_to_vec(s), p + nn))
            } else {
                None
            }
        },
    }
}

fn decode_string_at(v: &Vec<u8>, pos: usize) -> (r: Option<(String, usize)>)
    ensures
        r is Some <==> dec_chars(v@, pos as int) is Some,
        r matches Some((s, p)) ==> dec_chars(v@, pos as int) == Some((s@, p as int)),
{
    match decode_bytes_at(v, pos) {
        None => None,
        Some((bs, p)) => {
            let ghost bytes = bs@;
            match string_from_utf8(bs) {
                None => None,
                Some(s) => {
                    proof {
                        encode_utf8_decode_utf8(s@);
                    }
                    Some((s, p))
                },
            }
        },
    }
}

fn decode_job_id_at(v: &Vec<u8>, pos: usize) -> (r: Option<(JobId, usize)>)
    ensures
        r is Some <==> dec_job_id(v@, pos as int) is Some,
        r matches Some((j, p)) ==> dec_job_id(v@, pos as int) == Some((j@, p as int)),
{
    match decode_string_at(v, pos) {
        None => None,
        Some((namespace, p1)) => match decode_string_at(v, p1) {
            None => None,
            Some((name, p2)) => Some((JobId { namespace, name }, p2)),
        },
    }
}

fn decode_opt_job_id_at(v: &Vec<u8>, pos: usize) -> (r: Option<(Option<JobId>, usize)>)
    ensures
        r is Some <==> dec_opt_job_id(v@, pos as int) is Some,
        r matches Some((j, p)) ==> dec_opt_job_id(v@, pos as int) == Some(
            (
                match j {
                    Option::Some(j) => Option::Some(j@),
                    Option::None => Option::None,
                },
                p as int,
            ),
        ),
{
    match decode_u8_at(v, pos) {
        None => None,
        Some((tag, p)) => {
            if tag == 0 {
                Some((None, p))
            } else if tag == 1 {
                match decode_job_id_at(v, p) {
                    None => None,
                    Some((j, p2)) => Some((Some(j), p2)),
                }
            } else {
                None
            }
        },
    }
}

fn decode_addr_at(v: &Vec<u8>, pos: usize) -> (r: Option<(HostAddr, usize)>)
    ensures
        r is Some <==> dec_addr(v@, pos as int) is Some,
        r matches Some((a, p)) ==> dec_addr(v@, pos as int) == Some((a@, p as int)),
{
    match decode_string_at(v, pos) {
        None => None,
        Some((host, p1)) => match decode_u16_at(v, p1) {
            None => None,
            Some((port, p2)) => Some((HostAddr { host, port }, p2)),
        },
    }
}

fn decode_opt_addr_at(v: &Vec<u8>, pos: usize) -> (r: Option<(Option<HostAddr>, usize)>)
    ensures
        r is Some <==> dec_opt_addr(v@, pos as int) is Some,
        r matches Some((a, p)) ==> dec_opt_addr(v@, pos as int) == Some(
            (
                match a {
                    Option::Some(a) => Option::Some(a@),
                    Option::None => Option::None,
                },
                p as int,
            ),
        ),
{
    match decode_u8_at(v, pos) {
        None => None,
        Some((tag, p)) => {
            if tag == 0 {
                Some((None, p))
            } else if tag == 1 {
                match decode_addr_at(v, p) {
                    None => None,
                    Some((a, p2)) => Some((Some(a), p2)),
                }
            } else {
                None
            }
        },
    }
}

fn decode_op_at(v: &Vec<u8>, pos: usize) -> (r: Option<(OperatorSpec, usize)>)
    ensures
        r is Some <==> dec_op(v@, pos as int) is Some,
        r matches Some((o, p)) ==> dec_op(v@, pos as int) == Some((o@, p as int)),
{
    match decode_u32_at(v, pos) {
        None => None,
        Some((executor_id, p1)) => match decode_bytes_at(v, p1) {
            None => None,
            Some((payload, p2)) => match decode_opt_addr_at(v, p2) {
                None => None,
                Some((host_addr, p3)) => Some(
                    (OperatorSpec { executor_id, payload, host_addr }, p3),
                ),
            },
        },
    }
}

fn decode_ops_at(v: &Vec<u8>, pos: usize, count: u64) -> (r: Option<(Vec<OperatorSpec>, usize)>)
    ensures
        r is Some <==> dec_ops(v@, pos as int, count as int) is Some,
        r matches Some((ops, p)) ==> dec_ops(v@, pos as int, count as int) == Some(
            (ops@.map_values(|o: OperatorSpec| o@), p as int),
        ),
{
    let mut acc: Vec<OperatorSpec> = Vec::new();
    let mut cur = pos;
    let mut i: u64 = 0;
    while i < count
        invariant
            i <= count,
            acc@.len() == i,
            dec_ops(v@, pos as int, count as int) == (match dec_ops(
                v@,
                cur as int,
                count as int - i as int,
            ) {
                Option::Some((rest, p)) => Option::Some(
                    (acc@.map_values(|o: OperatorSpec| o@) + rest, p),
                ),
                Option::None => Option::None::<(Seq<OperatorSpecView>, int)>,
            }),
        decreases count - i,
    {
        let ghost acc_view = acc@.map_values(|o: OperatorSpec| o@);
        match decode_op_at(v, cur) {
            None => {
                return None;
            },
            Some((o, p2)) => {
                proof {
                    let rest_r = dec_ops(v@, p2 as int, count as int - i as int - 1);
                    if rest_r is Some {
                        let (rest, pp) = rest_r->Some_0;
                        assert(dec_ops(v@, cur as int, count as int - i as int) == Option::Some(
                            (seq![o@] + rest, pp),
                        ));
                        assert(acc_view + (seq![o@] + rest) =~= (acc_view.push(o@)) + rest);
                    } else {
                        assert(dec_ops(v@, cur as int, count as int - i as int) is None);
                    }
                }
                acc.push(o);
                proof {
                    assert(acc@.map_values(|op: OperatorSpec| op@) =~= acc_view.push(o@));
                }
                cur = p2;
            },
        }
        i += 1;
    }
    proof {
        assert(dec_ops(v@, cur as int, 0) == Option::Some(
            (Seq::<OperatorSpecView>::empty(), cur as int),
        ));
        assert(acc@.map_values(|o: OperatorSpec| o@) + Seq::<OperatorSpecView>::empty()
            =~= acc@.map_values(|o: OperatorSpec| o@));
    }
    Some((acc, cur))
}

fn decode_edge_at(v: &Vec<u8>, pos: usize) -> (r: Option<(Edge, usize)>)
    ensures
        r is Some <==> dec_edge(v@, pos as int) is Some,
        r matches Some((e, p)) ==> dec_edge(v@, pos as int) == Some((e, p as int)),
{
    match decode_u32_at(v, pos) {
        None => None,
        Some((from_id, p1)) => match decode_u32_at(v, p1) {
            None => None,
            Some((to_id, p2)) => Some((Edge { from_id, to_id }, p2)),
        },
    }
}

fn decode_edges_at(v: &Vec<u8>, pos: usize, count: u64) -> (r: Option<(Vec<Edge>, usize)>)
    ensures
        r is Some <==> dec_edges(v@, pos as int, count as int) is Some,
        r matches Some((es, p)) ==> dec_edges(v@, pos as int, count as int) == Some(
            (es@, p as int),
        ),
{
    let mut acc: Vec<Edge> = Vec::new();
    let mut cur = pos;
    let mut i: u64 = 0;
    while i < count
        invariant
            i <= count,
            acc@.len() == i,
            dec_edges(v@, pos as int, count as int) == (match dec_edges(
                v@,
                cur as int,
                count as int - i as int,
            ) {
                Option::Some((rest, p)) => Option::Some((acc@ + rest, p)),
                Option::None => Option::None::<(Seq<Edge>, int)>,
            }),
        decreases count - i,
    {
        let ghost acc_view = acc@;
        match decode_edge_at(v, cur) {
            None => {
                return None;
            },
            Some((e, p2)) => {
                proof {
                    let rest_r = dec_edges(v@, p2 as int, count as int - i as int - 1);
                    if rest_r is Some {
                        let (rest, pp) = rest_r->Some_0;
                        assert(dec_edges(v@, cur as int, count as int - i as int) == Option::Some(
                            (seq![e] + rest, pp),
                        ));
                        assert(acc_view + (seq![e] + rest) =~= (acc_view.push(e)) + rest);
                    } else {
                        assert(dec_edges(v@, cur as int, count as int - i as int) is None);
                    }
                }
                acc.push(e);
                cur = p2;
            },
        }
        i += 1;
    }
    proof {
        assert(dec_edges(v@, cur as int, 0) == Option::Some((Seq::<Edge>::empty(), cur as int)));
        assert(acc@ + Seq::<Edge>::empty() =~= acc@);
    }
    Some((acc, cur))
}

fn decode_dataflow_at(v: &Vec<u8>, pos: usize) -> (r: Option<(Dataflow, usize)>)
    ensures
        r is Some <==> dec_dataflow(v@, pos as int) is Some,
        r matches Some((d, p)) ==> dec_dataflow(v@, pos as int) == Some((d@, p as int)),
{
    match decode_opt_job_id_at(v, pos) {
        None => None,
        Some((job_id, p1)) => match decode_u64_at(v, p1) {
            None => None,
            Some((nn, p2)) => match decode_ops_at(v, p2, nn) {
                None => None,
                Some((nodes, p3)) => match decode_u64_at(v, p3) {
                    None => None,
                    Some((ne, p4)) => match decode_edges_at(v, p4, ne) {
                        None => None,
                        Some((edges, p5)) => Some((Dataflow { job_id, nodes, edges }, p5)),
                    },
                },
            },
        },
    }
}

/// Decodes a storage key back into a job identifier; `None` on any byte
/// sequence that is not the canonical form of one.
pub fn decode_job_id(bytes: &Vec<u8>) -> (r: Option<JobId>)
    ensures
        r is Some <==> dec_job_id_full(bytes@) is Some,
        r matches Some(j) ==> dec_job_id_full(bytes@) == Some(j@),
{
    match decode_job_id_at(bytes, 0) {
        None => None,
        Some((j, p)) => if p == bytes.len() {
            Some(j)
        } else {
            None
        },
    }
}

/// Decodes a storage value back into a dataflow; `None` on any byte
/// sequence that is not the canonical form of one.
pub fn decode_dataflow(bytes: &Vec<u8>) -> (r: Option<Dataflow>)
    ensures
        r is Some <==> dec_dataflow_full(bytes@) is Some,
        r matches Some(d) ==> dec_dataflow_full(bytes@) == Some(d@),
{
    match decode_dataflow_at(bytes, 0) {
        None => None,
        Some((d, p)) => if p == bytes.len() {
            Some(d)
        } else {
            None
        },
    }
}


// ---------------------------------------------------------------------------
// Round trip: decoding inverts encoding
// ---------------------------------------------------------------------------

proof fn lemma_dec_u8_enc(p: Seq<u8>, x: u8, t: Seq<u8>)
    ensures
        dec_u8(p + seq![x] + t, p.len() as int) == Some((x, p.len() as int + 1)),
{
    assert((p + seq![x] + t)[p.len() as int] == x);
}

proof fn lemma_dec_u16_enc(p: Seq<u8>, x: u16, t: Seq<u8>)
    ensures
        dec_u16(p + spec_u16_to_le_bytes(x) + t, p.len() as int) == Some((x, p.len() as int + 2)),
{
    lemma_auto_spec_u16_to_from_le_bytes();
    assert((p + spec_u16_to_le_bytes(x) + t).subrange(p.len() as int, p.len() as int + 2)
        =~= spec_u16_to_le_bytes(x));
}

proof fn lemma_dec_u32_enc(p: Seq<u8>, x: u32, t: Seq<u8>)
    ensures
        dec_u32(p + spec_u32_to_le_bytes(x) + t, p.len() as int) == Some((x, p.len() as int + 4)),
{
    lemma_auto_spec_u32_to_from_le_bytes();
    assert((p + spec_u32_to_le_bytes(x) + t).subrange(p.len() as int, p.len() as int + 4)
        =~= spec_u32_to_le_bytes(x));
}

proof fn lemma_dec_u64_enc(p: Seq<u8>, x: u64, t: Seq<u8>)
    ensures
        dec_u64(p + spec_u64_to_le_bytes(x) + t, p.len() as int) == Some((x, p.len() as int + 8)),
{
    lemma_auto_spec_u64_to_from_le_bytes();
    assert((p + spec_u64_to_le_bytes(x) + t).subrange(p.len() as int, p.len() as int + 8)
        =~= spec_u64_to_le_bytes(x));
}

proof fn lemma_dec_bytes_enc(p: Seq<u8>, b: Seq<u8>, t: Seq<u8>)
    requires
        b.len() <= u64::MAX,
    ensures
        dec_bytes(p + enc_bytes(b) + t, p.len() as int) == Some(
            (b, p.len() as int + enc_bytes(b).len() as int),
        ),
{
    lemma_auto_spec_u64_to_from_le_bytes();
    let lenb = spec_u64_to_le_bytes(b.len() as u64);
    let whole = p + enc_bytes(b) + t;
    assert(whole =~= p + lenb + (b + t));
    lemma_dec_u64_enc(p, b.len() as u64, b + t);
    assert(whole.subrange(p.len() as int + 8, p.len() as int + 8 + b.len() as int) =~= b);
}

proof fn lemma_dec_chars_enc(p: Seq<u8>, s: Seq<char>, t: Seq<u8>)
    requires
        encodable_chars(s),
    ensures
        dec_chars(p + enc_chars(s) + t, p.len() as int) == Some(
            (s, p.len() as int + enc_chars(s).len() as int),
        ),
{
    lemma_dec_bytes_enc(p, encode_utf8(s), t);
    encode_utf8_valid_utf8(s);
    encode_utf8_decode_utf8(s);
}

proof fn lemma_dec_job_id_enc(p: Seq<u8>, j: JobIdView, t: Seq<u8>)
    requires
        encodable_job_id(j),
    ensures
        dec_job_id(p + enc_job_id(j) + t, p.len() as int) == Some(
            (j, p.len() as int + enc_job_id(j).len() as int),
        ),
{
    let e1 = enc_chars(j.namespace);
    let e2 = enc_chars(j.name);
    let whole = p + enc_job_id(j) + t;
    assert(whole =~= p + e1 + (e2 + t));
    lemma_dec_chars_enc(p, j.namespace, e2 + t);
    assert(whole =~= (p + e1) + e2 + t);
    lemma_dec_chars_enc(p + e1, j.name, t);
    assert(JobIdView { namespace: j.namespace, name: j.name } == j);
}

proof fn lemma_dec_opt_job_id_enc(p: Seq<u8>, j: Option<JobIdView>, t: Seq<u8>)
    requires
        encodable_opt_job_id(j),
    ensures
        dec_opt_job_id(p + enc_opt_job_id(j) + t, p.len() as int) == Some(
            (j, p.len() as int + enc_opt_job_id(j).len() as int),
        ),
{
    match j {
        Option::None => {
            assert(p + enc_opt_job_id(j) + t =~= p + seq![0u8] + t);
            lemma_dec_u8_enc(p, 0u8, t);
        },
        Option::Some(jj) => {
            let whole = p + enc_opt_job_id(j) + t;
            assert(whole =~= p + seq![1u8] + (enc_job_id(jj) + t));
            lemma_dec_u8_enc(p, 1u8, enc_job_id(jj) + t);
            assert(whole =~= (p + seq![1u8]) + enc_job_id(jj) + t);
            lemma_dec_job_id_enc(p + seq![1u8], jj, t);
        },
    }
}

proof fn lemma_dec_addr_enc(p: Seq<u8>, a: HostAddrView, t: Seq<u8>)
    requires
        encodable_addr(a),
    ensures
        dec_addr(p + enc_addr(a) + t, p.len() as int) == Some((a, p.len() as int + enc_addr(a).len() as int)),
{
    lemma_auto_spec_u16_to_from_le_bytes();
    let e1 = enc_chars(a.host);
    let e2 = spec_u16_to_le_bytes(a.port);
    let whole = p + enc_addr(a) + t;
    assert(whole =~= p + e1 + (e2 + t));
    lemma_dec_chars_enc(p, a.host, e2 + t);
    assert(whole =~= (p + e1) + e2 + t);
    lemma_dec_u16_enc(p + e1, a.port, t);
    assert(HostAddrView { host: a.host, port: a.port } == a);
}

proof fn lemma_dec_opt_addr_enc(p: Seq<u8>, a: Option<HostAddrView>, t: Seq<u8>)
    requires
        encodable_opt_addr(a),
    ensures
        dec_opt_addr(p + enc_opt_addr(a) + t, p.len() as int) == Some(
            (a, p.len() as int + enc_opt_addr(a).len() as int),
        ),
{
    match a {
        Option::None => {
            assert(p + enc_opt_addr(a) + t =~= p + seq![0u8] + t);
            lemma_dec_u8_enc(p, 0u8, t);
        },
        Option::Some(aa) => {
            let whole = p + enc_opt_addr(a) + t;
            assert(whole =~= p + seq![1u8] + (enc_addr(aa) + t));
            lemma_dec_u8_enc(p, 1u8, enc_addr(aa) + t);
            assert(whole =~= (p + seq![1u8]) + enc_addr(aa) + t);
            lemma_dec_addr_enc(p + seq![1u8], aa, t);
        },
    }
}

proof fn lemma_dec_op_enc(p: Seq<u8>, o: OperatorSpecView, t: Seq<u8>)
    requires
        encodable_op(o),
    ensures
        dec_op(p + enc_op(o) + t, p.len() as int) == Some((o, p.len() as int + enc_op(o).len() as int)),
{
    lemma_auto_spec_u32_to_from_le_bytes();
    let e1 = spec_u32_to_le_bytes(o.executor_id);
    let e2 = enc_bytes(o.payload);
    let e3 = enc_opt_addr(o.host_addr);
    let whole = p + enc_op(o) + t;
    assert(whole =~= p + e1 + (e2 + e3 + t));
    lemma_dec_u32_enc(p, o.executor_id, e2 + e3 + t);
    assert(whole =~= (p + e1) + e2 + (e3 + t));
    lemma_dec_bytes_enc(p + e1, o.payload, e3 + t);
    assert(whole =~= (p + e1 + e2) + e3 + t);
    lemma_dec_opt_addr_enc(p + e1 + e2, o.host_addr, t);
    assert(OperatorSpecView {
        executor_id: o.executor_id,
        payload: o.payload,
        host_addr: o.host_addr,
    } == o);
}

proof fn lemma_dec_ops_enc(p: Seq<u8>, s: Seq<OperatorSpecView>, t: Seq<u8>)
    requires
        forall|i: int| 0 <= i < s.len() ==> encodable_op(#[trigger] s[i]),
    ensures
        dec_ops(p + enc_ops(s) + t, p.len() as int, s.len() as int) == Some(
            (s, p.len() as int + enc_ops(s).len() as int),
        ),
    decreases s.len(),
{
    if s.len() == 0 {
        assert(s =~= Seq::<OperatorSpecView>::empty());
    } else {
        let e0 = enc_op(s[0]);
        let rest = s.drop_first();
        let whole = p + enc_ops(s) + t;
        assert(whole =~= p + e0 + (enc_ops(rest) + t));
        lemma_dec_op_enc(p, s[0], enc_ops(rest) + t);
        assert(whole =~= (p + e0) + enc_ops(rest) + t);
        lemma_dec_ops_enc(p + e0, rest, t);
        assert(seq![s[0]] + rest =~= s);
    }
}

proof fn lemma_dec_edge_enc(p: Seq<u8>, e: Edge, t: Seq<u8>)
    ensures
        dec_edge(p + enc_edge(e) + t, p.len() as int) == Some((e, p.len() as int + enc_edge(e).len() as int)),
{
    lemma_auto_spec_u32_to_from_le_bytes();
    let e1 = spec_u32_to_le_bytes(e.from_id);
    let e2 = spec_u32_to_le_bytes(e.to_id);
    let whole = p + enc_edge(e) + t;
    assert(whole =~= p + e1 + (e2 + t));
    lemma_dec_u32_enc(p, e.from_id, e2 + t);
    assert(whole =~= (p + e1) + e2 + t);
    lemma_dec_u32_enc(p + e1, e.to_id, t);
    assert(Edge { from_id: e.from_id, to_id: e.to_id } == e);
}

proof fn lemma_dec_edges_enc(p: Seq<u8>, s: Seq<Edge>, t: Seq<u8>)
    ensures
        dec_edges(p + enc_edges(s) + t, p.len() as int, s.len() as int) == Some(
            (s, p.len() as int + enc_edges(s).len() as int),
        ),
    decreases s.len(),
{
    if s.len() == 0 {
        assert(s =~= Seq::<Edge>::empty());
    } else {
        let e0 = enc_edge(s[0]);
        let rest = s.drop_first();
        let whole = p + enc_edges(s) + t;
        assert(whole =~= p + e0 + (enc_edges(rest) + t));
        lemma_dec_edge_enc(p, s[0], enc_edges(rest) + t);
        assert(whole =~= (p + e0) + enc_edges(rest) + t);
        lemma_dec_edges_enc(p + e0, rest, t);
        assert(seq![s[0]] + rest =~= s);
    }
}

#[verifier::rlimit(100)]
#[verifier::spinoff_prover]
proof fn lemma_dec_dataflow_enc(p: Seq<u8>, d: DataflowView, t: Seq<u8>)
    requires
        encodable_dataflow(d),
    ensures
        dec_dataflow(p + enc_dataflow(d) + t, p.len() as int) == Some(
            (d, p.len() as int + enc_dataflow(d).len() as int),
        ),
{
    lemma_auto_spec_u64_to_from_le_bytes();
    let e1 = enc_opt_job_id(d.job_id);
    let e2 = spec_u64_to_le_bytes(d.nodes.len() as u64);
    let e3 = enc_ops(d.nodes);
    let e4 = spec_u64_to_le_bytes(d.edges.len() as u64);
    let e5 = enc_edges(d.edges);
    let whole = p + enc_dataflow(d) + t;
    assert(whole =~= p + e1 + (e2 + e3 + e4 + e5 + t));
    lemma_dec_opt_job_id_enc(p, d.job_id, e2 + e3 + e4 + e5 + t);
    assert(whole =~= (p + e1) + e2 + (e3 + e4 + e5 + t));
    lemma_dec_u64_enc(p + e1, d.nodes.len() as u64, e3 + e4 + e5 + t);
    assert(whole =~= (p + e1 + e2) + e3 + (e4 + e5 + t));
    lemma_dec_ops_enc(p + e1 + e2, d.nodes, e4 + e5 + t);
    assert(whole =~= (p + e1 + e2 + e3) + e4 + (e5 + t));
    lemma_dec_u64_enc(p + e1 + e2 + e3, d.edges.len() as u64, e5 + t);
    assert(whole =~= (p + e1 + e2 + e3 + e4) + e5 + t);
    lemma_dec_edges_enc(p + e1 + e2 + e3 + e4, d.edges, t);
    assert(DataflowView { job_id: d.job_id, nodes: d.nodes, edges: d.edges } == d);
}

/// Law: decoding inverts encoding on every encodable job identifier.
pub proof fn lemma_job_id_round_trip(j: JobIdView)
    requires
        encodable_job_id(j),
    ensures
        dec_job_id_full(enc_job_id(j)) == Some(j),
{
    lemma_dec_job_id_enc(Seq::empty(), j, Seq::empty());
    assert(Seq::<u8>::empty() + enc_job_id(j) + Seq::<u8>::empty() =~= enc_job_id(j));
}

/// Law: decoding inverts encoding on every encodable dataflow.
pub proof fn lemma_dataflow_round_trip(d: DataflowView)
    requires
        encodable_dataflow(d),
    ensures
        dec_dataflow_full(enc_dataflow(d)) == Some(d),
{
    lemma_dec_dataflow_enc(Seq::empty(), d, Seq::empty());
    assert(Seq::<u8>::empty() + enc_dataflow(d) + Seq::<u8>::empty() =~= enc_dataflow(d));
}

/// Law: the canonical key form is injective, so distinct jobs never
/// collide in storage.
pub proof fn lemma_enc_job_id_injective(a: JobIdView, b: JobIdView)
    requires
        encodable_job_id(a),
        encodable_job_id(b),
        enc_job_id(a) == enc_job_id(b),
    ensures
        a == b,
{
    lemma_job_id_round_trip(a);
    lemma_job_id_round_trip(b);
}

/// Law: the canonical byte form is injective on encodable dataflows.
pub proof fn lemma_enc_dataflow_injective(a: DataflowView, b: DataflowView)
    requires
        encodable_dataflow(a),
        encodable_dataflow(b),
        enc_dataflow(a) == enc_dataflow(b),
    ensures
        a == b,
{
    lemma_dataflow_round_trip(a);
    lemma_dataflow_round_trip(b);
}

} // verus!
