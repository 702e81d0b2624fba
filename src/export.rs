use vstd::prelude::*;
use crate::quantize::{append_quantized, clamp_count, lemma_clamp_count_bound, quantized_bytes, valid_width, Quantized};
use crate::schema::{
    file_size, header_bytes, is_network_topology, lemma_network_size, network_topology, prefix_size,
    topology_size, ExportHeader, TensorSpec, HEADER_SIZE,
};

verus! {

/// One named tensor of a bucket, as the training framework hands it over:
/// its values as IEEE-754 binary32 bit patterns, row-major.
pub struct NamedTensor {
    pub name: String,
    pub values: Vec<u32>,
}

/// The trained tensors of one bucket.
pub struct BucketParameters {
    pub tensors: Vec<NamedTensor>,
}

/// The trained tensors of every bucket, bucket 0 first.
pub struct TrainedParameters {
    pub buckets: Vec<BucketParameters>,
}

/// Why an export failed.
#[derive(Clone, Debug, PartialEq, Eq)]
pub enum ExportError {
    /// A tensor spec asks for an element width other than 1, 2 or 4.
    InvalidWidth { width: u32 },
    /// The bucket has no tensor of that name.
    MissingTensor { bucket: usize, name: String },
    /// The tensor's value count is not `rows * cols`.
    ShapeMismatch { bucket: usize, name: String, rows: usize, cols: usize, actual: usize },
}

/// What an `ExportError` says, as a mathematical value.
pub ghost enum Failure {
    InvalidWidth(u32),
    MissingTensor(nat, Seq<char>),
    ShapeMismatch(nat, Seq<char>, nat, nat, nat),
}

impl View for ExportError {
    type V = Failure;

    open spec fn view(&self) -> Failure {
        match self {
            ExportError::InvalidWidth { width } => Failure::InvalidWidth(*width),
            ExportError::MissingTensor { bucket, name } => Failure::MissingTensor(
                *bucket as nat,
                name@,
            ),
            ExportError::ShapeMismatch { bucket, name, rows, cols, actual } => Failure::ShapeMismatch(
                *bucket as nat,
                name@,
                *rows as nat,
                *cols as nat,
                *actual as nat,
            ),
        }
    }
}

/// The values of the first tensor at or after index `i` that is named `name`.
pub open spec fn find_from(ts: Seq<NamedTensor>, name: Seq<char>, i: int) -> Option<Seq<u32>>
    decreases ts.len() - i,
{
    if i < 0 || i >= ts.len() {
        None
    } else if ts[i].name@ == name {
        Some(ts[i].values@)
    } else {
        find_from(ts, name, i + 1)
    }
}

/// The tensors of bucket `b`; a bucket that was not handed over has none.
pub open spec fn bucket_tensors(p: TrainedParameters, b: int) -> Seq<NamedTensor> {
    if 0 <= b < p.buckets@.len() {
        p.buckets@[b].tensors@
    } else {
        seq![]
    }
}

/// The values of bucket `b`'s tensor named `name`, if it has one.
pub open spec fn lookup(p: TrainedParameters, b: int, name: Seq<char>) -> Option<Seq<u32>> {
    find_from(bucket_tensors(p, b), name, 0)
}

/// What is wrong with writing tensor `t` of bucket `b`, checked in this order:
/// the tensor is missing, its length is not `rows * cols`, its width is invalid.
pub open spec fn tensor_failure(p: TrainedParameters, b: nat, t: TensorSpec) -> Option<Failure> {
    match lookup(p, b as int, t.name@) {
        None => Some(Failure::MissingTensor(b, t.name@)),
        Some(vals) => if vals.len() != t.rows * t.cols {
            Some(Failure::ShapeMismatch(b, t.name@, t.rows as nat, t.cols as nat, vals.len()))
        } else if !valid_width(t.element_width) {
            Some(Failure::InvalidWidth(t.element_width))
        } else {
            None
        },
    }
}

/// The first failure among the first `n` tensors of bucket `b`.
pub open spec fn bucket_failure(p: TrainedParameters, topo: Seq<TensorSpec>, b: nat, n: int) -> Option<Failure>
    decreases n,
{
    if n <= 0 {
        None
    } else {
        match bucket_failure(p, topo, b, n - 1) {
            Some(f) => Some(f),
            None => tensor_failure(p, b, topo[n - 1]),
        }
    }
}

/// The first failure in the first `nb` buckets, in writing order.
pub open spec fn export_failure(p: TrainedParameters, topo: Seq<TensorSpec>, nb: nat) -> Option<Failure>
    decreases nb,
{
    if nb == 0 {
        None
    } else {
        match export_failure(p, topo, (nb - 1) as nat) {
            Some(f) => Some(f),
            None => bucket_failure(p, topo, (nb - 1) as nat, topo.len() as int),
        }
    }
}

/// The quantized bytes of tensor `t` of bucket `b`.
pub open spec fn tensor_bytes(p: TrainedParameters, b: nat, t: TensorSpec) -> Seq<u8> {
    quantized_bytes(lookup(p, b as int, t.name@).unwrap(), t.element_width, t.scale)
}

/// How many values of tensor `t` of bucket `b` clamp.
pub open spec fn tensor_clamped(p: TrainedParameters, b: nat, t: TensorSpec) -> nat {
    clamp_count(lookup(p, b as int, t.name@).unwrap(), t.element_width, t.scale)
}

/// The bytes of the first `n` tensors of bucket `b`.
pub open spec fn bucket_bytes(p: TrainedParameters, topo: Seq<TensorSpec>, b: nat, n: int) -> Seq<u8>
    decreases n,
{
    if n <= 0 {
        seq![]
    } else {
        bucket_bytes(p, topo, b, n - 1) + tensor_bytes(p, b, topo[n - 1])
    }
}

pub open spec fn bucket_clamped(p: TrainedParameters, topo: Seq<TensorSpec>, b: nat, n: int) -> nat
    decreases n,
{
    if n <= 0 {
        0
    } else {
        bucket_clamped(p, topo, b, n - 1) + tensor_clamped(p, b, topo[n - 1])
    }
}

/// The body: the whole of every bucket below `nb`, bucket 0 first.
pub open spec fn body_bytes(p: TrainedParameters, topo: Seq<TensorSpec>, nb: nat) -> Seq<u8>
    decreases nb,
{
    if nb == 0 {
        seq![]
    } else {
        body_bytes(p, topo, (nb - 1) as nat) + bucket_bytes(p, topo, (nb - 1) as nat, topo.len() as int)
    }
}

pub open spec fn body_clamped(p: TrainedParameters, topo: Seq<TensorSpec>, nb: nat) -> nat
    decreases nb,
{
    if nb == 0 {
        0
    } else {
        body_clamped(p, topo, (nb - 1) as nat) + bucket_clamped(p, topo, (nb - 1) as nat, topo.len() as int)
    }
}

/// A finished export: the file's bytes and how many values were clamped.
pub struct ExportOutput {
    pub bytes: Vec<u8>,
    pub clamped: usize,
}

/// What `export` promises of its result.
pub open spec fn export_result(
    p: TrainedParameters,
    topo: Seq<TensorSpec>,
    h: ExportHeader,
    r: Result<ExportOutput, ExportError>,
) -> bool {
    match r {
        Ok(out) => export_failure(p, topo, h.bucket_count as nat) is None && out.bytes@ == header_bytes(h)
            + body_bytes(p, topo, h.bucket_count as nat) && out.clamped == body_clamped(
            p,
            topo,
            h.bucket_count as nat,
        ),
        Err(e) => export_failure(p, topo, h.bucket_count as nat) == Some(e@),
    }
}

pub proof fn lemma_quantized_len(vals: Seq<u32>, w: u32, scale: u32)
    requires
        valid_width(w),
    ensures
        quantized_bytes(vals, w, scale).len() == vals.len() * w,
    decreases vals.len(),
{
    if vals.len() > 0 {
        lemma_quantized_len(vals.drop_last(), w, scale);
        crate::schema::lemma_le_bytes_len(
            crate::quantize::twos_complement(crate::quantize::quantized(vals.last(), w, scale), w as nat),
            w as nat,
        );
        assert((vals.len() - 1) * w + w == vals.len() * w) by (nonlinear_arith);
    }
}

pub proof fn lemma_prefix_size_mono(topo: Seq<TensorSpec>, i: int, j: int)
    requires
        0 <= i <= j,
    ensures
        prefix_size(topo, i) <= prefix_size(topo, j),
    decreases j - i,
{
    if i < j {
        lemma_prefix_size_mono(topo, i, j - 1);
    }
}

pub proof fn lemma_bucket_failure_stays(p: TrainedParameters, topo: Seq<TensorSpec>, b: nat, n: int, m: int)
    requires
        0 <= n <= m,
        bucket_failure(p, topo, b, n) is Some,
    ensures
        bucket_failure(p, topo, b, m) == bucket_failure(p, topo, b, n),
    decreases m - n,
{
    if n < m {
        lemma_bucket_failure_stays(p, topo, b, n, m - 1);
    }
}

pub proof fn lemma_export_failure_stays(p: TrainedParameters, topo: Seq<TensorSpec>, n: nat, m: nat)
    requires
        n <= m,
        export_failure(p, topo, n) is Some,
    ensures
        export_failure(p, topo, m) == export_failure(p, topo, n),
    decreases m - n,
{
    if n < m {
        lemma_export_failure_stays(p, topo, n, (m - 1) as nat);
    }
}

/// The values of the first tensor named `name`, if any.
fn find_tensor<'a>(ts: &'a Vec<NamedTensor>, name: &String) -> (r: Option<&'a Vec<u32>>)
    ensures
        match r {
            Some(v) => find_from(ts@, name@, 0) == Some(v@),
            None => find_from(ts@, name@, 0) is None,
        },
{
    let mut i: usize = 0;
    while i < ts.len()
        invariant
            i <= ts@.len(),
            find_from(ts@, name@, 0) == find_from(ts@, name@, i as int),
        decreases ts@.len() - i,
    {
        if ts[i].name == *name {
            return Some(&ts[i].values);
        }
        i = i + 1;
    }
    None
}

/// Records the failure of tensor `i` of bucket `b` as the export's failure.
proof fn lemma_first_failure(
    p: TrainedParameters,
    topo: Seq<TensorSpec>,
    b: nat,
    i: int,
    nb: nat,
    f: Failure,
)
    requires
        0 <= i < topo.len(),
        b < nb,
        export_failure(p, topo, b) is None,
        bucket_failure(p, topo, b, i) is None,
        tensor_failure(p, b, topo[i]) == Some(f),
    ensures
        export_failure(p, topo, nb) == Some(f),
{
    lemma_bucket_failure_stays(p, topo, b, i + 1, topo.len() as int);
    lemma_export_failure_stays(p, topo, b + 1, nb);
}

/// Writes the file for `trained`: the header, then for each bucket from 0 up
/// every tensor of `topology` in order, quantized to its width and scale.
/// Fails with the first missing tensor, wrong shape or invalid width met in
/// that order.
pub fn export(trained: &TrainedParameters, topology: &Vec<TensorSpec>, header: &ExportHeader) -> (r: Result<
    ExportOutput,
    ExportError,
>)
    requires
        HEADER_SIZE + header.bucket_count * topology_size(topology@) <= usize::MAX,
    ensures
        export_result(*trained, topology@, *header, r),
        r is Ok <==> export_failure(*trained, topology@, header.bucket_count as nat) is None,
        r matches Ok(out) ==> out.bytes@.len() == HEADER_SIZE + header.bucket_count * topology_size(
            topology@,
        ),
{
    let ghost p = *trained;
    let ghost topo = topology@;
    let ghost size = topology_size(topology@);
    let bucket_count = header.bucket_count;
    let empty: Vec<NamedTensor> = Vec::new();
    let mut out = Quantized { bytes: header.to_bytes(), clamped: 0 };
    let mut b: u32 = 0;
    while b < bucket_count
        invariant
            b <= bucket_count,
            bucket_count == header.bucket_count,
            p == *trained,
            topo == topology@,
            size == topology_size(topo),
            empty@.len() == 0,
            HEADER_SIZE + bucket_count * size <= usize::MAX,
            export_failure(p, topo, b as nat) is None,
            out.bytes@ == header_bytes(*header) + body_bytes(p, topo, b as nat),
            out.clamped == body_clamped(p, topo, b as nat),
            out.bytes@.len() == HEADER_SIZE + b * size,
            out.clamped <= b * size,
        decreases bucket_count - b,
    {
        let tensors: &Vec<NamedTensor> = if (b as usize) < trained.buckets.len() {
            &trained.buckets[b as usize].tensors
        } else {
            &empty
        };
        assert(tensors@ == bucket_tensors(p, b as int));
        assert(b * size + size == (b + 1) * size) by (nonlinear_arith);
        assert((b + 1) * size <= bucket_count * size) by (nonlinear_arith)
            requires
                b + 1 <= bucket_count,
        ;
        let ghost start = out.bytes@;
        let ghost start_clamped = out.clamped;
        let mut i: usize = 0;
        while i < topology.len()
            invariant
                b < bucket_count,
                bucket_count == header.bucket_count,
                p == *trained,
                topo == topology@,
                size == topology_size(topo),
                tensors@ == bucket_tensors(p, b as int),
                HEADER_SIZE + bucket_count * size <= usize::MAX,
                (b + 1) * size <= bucket_count * size,
                b * size + size == (b + 1) * size,
                i <= topo.len(),
                export_failure(p, topo, b as nat) is None,
                bucket_failure(p, topo, b as nat, i as int) is None,
                start == header_bytes(*header) + body_bytes(p, topo, b as nat),
                start_clamped == body_clamped(p, topo, b as nat),
                start.len() == HEADER_SIZE + b * size,
                start_clamped <= b * size,
                out.bytes@ == start + bucket_bytes(p, topo, b as nat, i as int),
                out.clamped == start_clamped + bucket_clamped(p, topo, b as nat, i as int),
                out.bytes@.len() == start.len() + prefix_size(topo, i as int),
                out.clamped <= start_clamped + prefix_size(topo, i as int),
            decreases topo.len() - i,
        {
            let t = &topology[i];
            proof {
                lemma_prefix_size_mono(topo, i + 1, topo.len() as int);
            }
            match find_tensor(tensors, &t.name) {
                None => {
                    let e = ExportError::MissingTensor { bucket: b as usize, name: t.name.clone() };
                    proof {
                        lemma_first_failure(p, topo, b as nat, i as int, bucket_count as nat, e@);
                    }
                    return Err(e);
                },
                Some(vals) => {
                    let n: usize = vals.len();
                    let shape_ok = match t.rows.checked_mul(t.cols) {
                        None => false,
                        Some(m) => m == n,
                    };
                    if !shape_ok {
                        let e = ExportError::ShapeMismatch {
                            bucket: b as usize,
                            name: t.name.clone(),
                            rows: t.rows,
                            cols: t.cols,
                            actual: n,
                        };
                        proof {
                            lemma_first_failure(p, topo, b as nat, i as int, bucket_count as nat, e@);
                        }
                        return Err(e);
                    }
                    if !(t.element_width == 1 || t.element_width == 2 || t.element_width == 4) {
                        let e = ExportError::InvalidWidth { width: t.element_width };
                        proof {
                            lemma_first_failure(p, topo, b as nat, i as int, bucket_count as nat, e@);
                        }
                        return Err(e);
                    }
                    proof {
                        let w = t.element_width;
                        assert(t.byte_size() == n * w);
                        assert(n <= n * w) by (nonlinear_arith)
                            requires
                                w >= 1,
                        ;
                        lemma_quantized_len(vals@, w, t.scale);
                        lemma_clamp_count_bound(vals@, w, t.scale);
                    }
                    let ghost before = out.bytes@;
                    append_quantized(vals, t.element_width, t.scale, &mut out);
                    assert(out.bytes@ =~= start + bucket_bytes(p, topo, b as nat, i + 1));
                },
            }
            i = i + 1;
        }
        assert(out.bytes@ =~= header_bytes(*header) + body_bytes(p, topo, (b + 1) as nat));
        b = b + 1;
    }
    Ok(ExportOutput { bytes: out.bytes, clamped: out.clamped })
}

/// Block `bucket` of a tensor whose buckets are stored one after another in
/// blocks of `block` values; `None` if the tensor is too short to hold it.
pub fn bucket_block(values: &Vec<u32>, bucket: usize, block: usize) -> (r: Option<Vec<u32>>)
    ensures
        match r {
            Some(v) => (bucket + 1) * block <= values@.len() && v@ == values@.subrange(
                bucket * block,
                (bucket + 1) * block,
            ),
            None => (bucket + 1) * block > values@.len(),
        },
{
    let len: usize = values.len();
    let start = match bucket.checked_mul(block) {
        Some(s) => s,
        None => {
            assert((bucket + 1) * block > values@.len()) by (nonlinear_arith)
                requires
                    bucket * block > usize::MAX,
                    values@.len() == len,
                    len <= usize::MAX,
            ;
            return None;
        },
    };
    assert((bucket + 1) * block == start + block) by (nonlinear_arith)
        requires
            start == bucket * block,
    ;
    if block > values.len() || start > values.len() - block {
        return None;
    }
    let mut out: Vec<u32> = Vec::new();
    let end: usize = start + block;
    let mut i: usize = start;
    while i < end
        invariant
            end == start + block,
            start <= i <= end,
            end <= values@.len(),
            out@ == values@.subrange(start as int, i as int),
        decreases end - i,
    {
        out.push(values[i]);
        i = i + 1;
        assert(out@ =~= values@.subrange(start as int, i as int));
    }
    Some(out)
}

/// Exports the network that `header` describes (see `network_topology`).
pub fn export_network(trained: &TrainedParameters, header: &ExportHeader) -> (r: Result<ExportOutput, ExportError>)
    requires
        file_size(*header) <= usize::MAX,
    ensures
        exists|topo: Seq<TensorSpec>| #[trigger]
            is_network_topology(*header, topo) && export_result(*trained, topo, *header, r),
        r matches Ok(out) ==> out.bytes@.len() == file_size(*header),
{
    let topology = network_topology(header);
    proof {
        lemma_network_size(*header, topology@);
    }
    let r = export(trained, &topology, header);
    assert(is_network_topology(*header, topology@) && export_result(*trained, topology@, *header, r));
    r
}

pub proof fn lemma_bucket_len(p: TrainedParameters, topo: Seq<TensorSpec>, b: nat, n: int)
    requires
        0 <= n <= topo.len(),
        bucket_failure(p, topo, b, n) is None,
    ensures
        bucket_bytes(p, topo, b, n).len() == prefix_size(topo, n),
    decreases n,
{
    if n > 0 {
        lemma_bucket_len(p, topo, b, n - 1);
        let t = topo[n - 1];
        let vals = lookup(p, b as int, t.name@).unwrap();
        lemma_quantized_len(vals, t.element_width, t.scale);
        assert(vals.len() * t.element_width == t.rows * t.cols * t.element_width);
    }
}

pub proof fn lemma_body_len(p: TrainedParameters, topo: Seq<TensorSpec>, nb: nat)
    requires
        export_failure(p, topo, nb) is None,
    ensures
        body_bytes(p, topo, nb).len() == nb * topology_size(topo),
    decreases nb,
{
    if nb > 0 {
        let m = (nb - 1) as nat;
        let size = topology_size(topo);
        lemma_body_len(p, topo, m);
        lemma_bucket_len(p, topo, m, topo.len() as int);
        assert(m * size + size == nb * size) by (nonlinear_arith)
            requires
                m + 1 == nb,
        ;
        assert(body_bytes(p, topo, nb) == body_bytes(p, topo, m) + bucket_bytes(p, topo, m, topo.len() as int));
        assert(bucket_bytes(p, topo, m, topo.len() as int).len() == size);
        assert(body_bytes(p, topo, m).len() == m * size);
    } else {
        assert(nb * topology_size(topo) == 0) by (nonlinear_arith)
            requires
                nb == 0,
        ;
    }
}

/// No failure in `nb` buckets means none in fewer.
pub proof fn lemma_no_failure_below(p: TrainedParameters, topo: Seq<TensorSpec>, k: nat, nb: nat)
    requires
        k <= nb,
        export_failure(p, topo, nb) is None,
    ensures
        export_failure(p, topo, k) is None,
{
    if export_failure(p, topo, k) is Some {
        lemma_export_failure_stays(p, topo, k, nb);
    }
}

/// The bytes of the first `k` buckets begin the bytes of the first `nb`.
pub proof fn lemma_body_prefix(p: TrainedParameters, topo: Seq<TensorSpec>, k: nat, nb: nat)
    requires
        k <= nb,
    ensures
        body_bytes(p, topo, k).len() <= body_bytes(p, topo, nb).len(),
        body_bytes(p, topo, nb).subrange(0, body_bytes(p, topo, k).len() as int) == body_bytes(p, topo, k),
    decreases nb,
{
    if k < nb {
        lemma_body_prefix(p, topo, k, (nb - 1) as nat);
        let prev = body_bytes(p, topo, (nb - 1) as nat);
        assert(body_bytes(p, topo, nb).subrange(0, prev.len() as int) =~= prev);
        assert(body_bytes(p, topo, nb).subrange(0, body_bytes(p, topo, k).len() as int) =~= prev.subrange(
            0,
            body_bytes(p, topo, k).len() as int,
        ));
    } else {
        assert(body_bytes(p, topo, nb).subrange(0, body_bytes(p, topo, k).len() as int) =~= body_bytes(p, topo, k));
    }
}

/// Bucket `k` of a successful export starts at `HEADER_SIZE + k * S`, where
/// `S` is the size of one bucket, and is exactly that bucket's tensors.
pub proof fn lemma_bucket_offset(p: TrainedParameters, topo: Seq<TensorSpec>, h: ExportHeader, k: nat)
    requires
        export_failure(p, topo, h.bucket_count as nat) is None,
        k < h.bucket_count,
    ensures
        (header_bytes(h) + body_bytes(p, topo, h.bucket_count as nat)).subrange(
            HEADER_SIZE + k * topology_size(topo),
            HEADER_SIZE + (k + 1) * topology_size(topo),
        ) == bucket_bytes(p, topo, k, topo.len() as int),
{
    let nb = h.bucket_count as nat;
    let size: int = topology_size(topo) as int;
    let k0: int = k as int;
    let hb = crate::schema::header_bytes(h);
    assert(hb.len() == HEADER_SIZE) by {
        crate::schema::lemma_le_bytes_len(h.version as nat, 4);
        crate::schema::lemma_le_bytes_len(h.bucket_count as nat, 4);
        crate::schema::lemma_le_bytes_len(h.input_features as nat, 4);
        crate::schema::lemma_le_bytes_len(h.trunk_width as nat, 4);
        crate::schema::lemma_le_bytes_len(h.head_width as nat, 4);
        crate::schema::lemma_le_bytes_len(h.gate_width as nat, 4);
    }
    lemma_no_failure_below(p, topo, k, nb);
    lemma_no_failure_below(p, topo, k + 1, nb);
    lemma_body_len(p, topo, k);
    lemma_body_len(p, topo, k + 1);
    lemma_body_prefix(p, topo, k + 1, nb);
    let body = body_bytes(p, topo, nb);
    let upto = body_bytes(p, topo, k + 1);
    let bucket = bucket_bytes(p, topo, k, topo.len() as int);
    assert(upto == body_bytes(p, topo, k) + bucket);
    assert(k0 * size + size == (k0 + 1) * size) by (nonlinear_arith);
    assert((k0 + 1) * size <= nb * size) by (nonlinear_arith)
        requires
            k0 + 1 <= nb,
            size >= 0,
    ;
    assert(0 <= k0 * size) by (nonlinear_arith)
        requires
            k0 >= 0,
            size >= 0,
    ;
    assert(upto.subrange(k0 * size, (k0 + 1) * size) =~= bucket);
    assert((hb + body).subrange(HEADER_SIZE + k0 * size, HEADER_SIZE + (k0 + 1) * size) =~= body.subrange(
        k0 * size,
        (k0 + 1) * size,
    ));
    assert(body.subrange(k0 * size, (k0 + 1) * size) =~= upto.subrange(k0 * size, (k0 + 1) * size));
}

/// Exporting the same input twice gives the same outcome: the same error, or
/// byte-identical files with the same clamp count.
pub proof fn lemma_export_deterministic(
    p: TrainedParameters,
    topo: Seq<TensorSpec>,
    h: ExportHeader,
    r1: Result<ExportOutput, ExportError>,
    r2: Result<ExportOutput, ExportError>,
)
    requires
        export_result(p, topo, h, r1),
        export_result(p, topo, h, r2),
    ensures
        r1 is Ok <==> r2 is Ok,
        r1 matches Err(e1) ==> (r2 matches Err(e2) && e1@ == e2@),
        r1 matches Ok(o1) ==> (r2 matches Ok(o2) && o1.bytes@ == o2.bytes@ && o1.clamped == o2.clamped),
{
}

} // verus!
