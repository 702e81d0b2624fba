use vstd::prelude::*;
use crate::quantize::le_bytes;
use crate::quantize::push_le;

verus! {

/// What a tensor is for; it fixes the tensor's element width and scale.
#[derive(Clone, Copy, Debug, PartialEq, Eq, Structural)]
pub enum Role {
    TrunkWeight,
    TrunkBias,
    HeadWeight,
    HeadBias,
    HeadOutWeight,
    HeadOutBias,
    GateWeight,
    GateBias,
    GateOutWeight,
    GateOutBias,
}

/// Bytes per stored element: 2 for the trunk, 1 for head and gate weights,
/// 4 for head and gate biases.
pub open spec fn role_width(r: Role) -> u32 {
    match r {
        Role::TrunkWeight | Role::TrunkBias => 2,
        Role::HeadWeight | Role::HeadOutWeight | Role::GateWeight | Role::GateOutWeight => 1,
        _ => 4,
    }
}

/// Scale factor: the trunk keeps the most precision; biases of the small
/// layers are stored at the product of the trunk and weight scales.
pub open spec fn role_scale(r: Role) -> u32 {
    match r {
        Role::TrunkWeight | Role::TrunkBias => 256,
        Role::HeadWeight | Role::HeadOutWeight | Role::GateWeight | Role::GateOutWeight => 64,
        _ => 16384,
    }
}

pub fn element_width(r: Role) -> (w: u32)
    ensures
        w == role_width(r),
{
    match r {
        Role::TrunkWeight | Role::TrunkBias => 2,
        Role::HeadWeight | Role::HeadOutWeight | Role::GateWeight | Role::GateOutWeight => 1,
        _ => 4,
    }
}

pub fn role_scale_factor(r: Role) -> (s: u32)
    ensures
        s == role_scale(r),
{
    match r {
        Role::TrunkWeight | Role::TrunkBias => 256,
        Role::HeadWeight | Role::HeadOutWeight | Role::GateWeight | Role::GateOutWeight => 64,
        _ => 16384,
    }
}

/// One named tensor of a bucket: its shape, how it is stored, and its role.
pub struct TensorSpec {
    pub name: String,
    pub rows: usize,
    pub cols: usize,
    pub element_width: u32,
    pub scale: u32,
    pub role: Role,
}

impl TensorSpec {
    /// Bytes this tensor contributes to each bucket.
    pub open spec fn byte_size(&self) -> nat {
        (self.rows * self.cols * self.element_width) as nat
    }

    /// A spec whose name is `name`, with the width and scale of its role.
    pub fn new(name: String, rows: usize, cols: usize, role: Role) -> (t: TensorSpec)
        ensures
            t.name@ == name@,
            t.rows == rows,
            t.cols == cols,
            t.role == role,
            t.element_width == role_width(role),
            t.scale == role_scale(role),
    {
        TensorSpec { name, rows, cols, element_width: element_width(role), scale: role_scale_factor(role), role }
    }
}

/// Bytes of one bucket laid out by the first `n` specs.
pub open spec fn prefix_size(topo: Seq<TensorSpec>, n: int) -> nat
    decreases n,
{
    if n <= 0 {
        0
    } else {
        prefix_size(topo, n - 1) + topo[n - 1].byte_size()
    }
}

/// Bytes of one bucket.
pub open spec fn topology_size(topo: Seq<TensorSpec>) -> nat {
    prefix_size(topo, topo.len() as int)
}

/// Size of the header, in bytes.
pub const HEADER_SIZE: usize = 32;

/// Version of the file format that this library writes.
pub const FORMAT_VERSION: u32 = 1;

/// The tag that opens every file: "AS768NUE".
pub open spec fn magic_bytes() -> Seq<u8> {
    seq![0x41u8, 0x53u8, 0x37u8, 0x36u8, 0x38u8, 0x4eu8, 0x55u8, 0x45u8]
}

/// The preamble of an exported file: format version, bucket count and the
/// network's dimensions.
#[derive(Clone, Copy, Debug, PartialEq, Eq, Structural)]
pub struct ExportHeader {
    pub version: u32,
    pub bucket_count: u32,
    pub input_features: u32,
    pub trunk_width: u32,
    pub head_width: u32,
    pub gate_width: u32,
}

/// The header's bytes: the magic tag, then its six fields as little-endian `u32`.
pub open spec fn header_bytes(h: ExportHeader) -> Seq<u8> {
    magic_bytes() + le_bytes(h.version as nat, 4) + le_bytes(h.bucket_count as nat, 4) + le_bytes(
        h.input_features as nat,
        4,
    ) + le_bytes(h.trunk_width as nat, 4) + le_bytes(h.head_width as nat, 4) + le_bytes(
        h.gate_width as nat,
        4,
    )
}

pub proof fn lemma_le_bytes_len(v: nat, n: nat)
    ensures
        le_bytes(v, n).len() == n,
    decreases n,
{
    if n > 0 {
        lemma_le_bytes_len(v / 256, (n - 1) as nat);
    }
}

impl ExportHeader {
    /// A header of the current format version for the given dimensions.
    pub fn new(
        bucket_count: u32,
        input_features: u32,
        trunk_width: u32,
        head_width: u32,
        gate_width: u32,
    ) -> (h: ExportHeader)
        ensures
            h.version == FORMAT_VERSION,
            h.bucket_count == bucket_count,
            h.input_features == input_features,
            h.trunk_width == trunk_width,
            h.head_width == head_width,
            h.gate_width == gate_width,
    {
        ExportHeader { version: FORMAT_VERSION, bucket_count, input_features, trunk_width, head_width, gate_width }
    }

    /// The header's bytes, `HEADER_SIZE` of them.
    pub fn to_bytes(&self) -> (r: Vec<u8>)
        ensures
            r@ == header_bytes(*self),
            r@.len() == HEADER_SIZE,
    {
        let mut r: Vec<u8> = vec![0x41u8, 0x53u8, 0x37u8, 0x36u8, 0x38u8, 0x4eu8, 0x55u8, 0x45u8];
        assert(r@ =~= magic_bytes());
        push_le(self.version as u64, 4, &mut r);
        push_le(self.bucket_count as u64, 4, &mut r);
        push_le(self.input_features as u64, 4, &mut r);
        push_le(self.trunk_width as u64, 4, &mut r);
        push_le(self.head_width as u64, 4, &mut r);
        push_le(self.gate_width as u64, 4, &mut r);
        proof {
            lemma_le_bytes_len(self.version as nat, 4);
            lemma_le_bytes_len(self.bucket_count as nat, 4);
            lemma_le_bytes_len(self.input_features as nat, 4);
            lemma_le_bytes_len(self.trunk_width as nat, 4);
            lemma_le_bytes_len(self.head_width as nat, 4);
            lemma_le_bytes_len(self.gate_width as nat, 4);
        }
        r
    }
}

/// Number of tensors in one bucket of the network.
pub const TENSOR_COUNT: usize = 14;

/// Name of the `i`-th tensor of a bucket.
pub open spec fn tensor_name(i: int) -> Seq<char> {
    if i == 0 {
        "l0_w"@
    } else if i == 1 {
        "l0_b"@
    } else if i == 2 {
        "head_a_w"@
    } else if i == 3 {
        "head_a_b"@
    } else if i == 4 {
        "head_a_out_w"@
    } else if i == 5 {
        "head_a_out_b"@
    } else if i == 6 {
        "head_b_w"@
    } else if i == 7 {
        "head_b_b"@
    } else if i == 8 {
        "head_b_out_w"@
    } else if i == 9 {
        "head_b_out_b"@
    } else if i == 10 {
        "gate_w"@
    } else if i == 11 {
        "gate_b"@
    } else if i == 12 {
        "gate_out_w"@
    } else {
        "gate_out_b"@
    }
}

/// Role of the `i`-th tensor of a bucket: trunk weight and bias, then four
/// tensors for each of the two heads and four for the blend layer.
pub open spec fn tensor_role(i: int) -> Role {
    if i == 0 {
        Role::TrunkWeight
    } else if i == 1 {
        Role::TrunkBias
    } else if i == 2 || i == 6 {
        Role::HeadWeight
    } else if i == 3 || i == 7 {
        Role::HeadBias
    } else if i == 4 || i == 8 {
        Role::HeadOutWeight
    } else if i == 5 || i == 9 {
        Role::HeadOutBias
    } else if i == 10 {
        Role::GateWeight
    } else if i == 11 {
        Role::GateBias
    } else if i == 12 {
        Role::GateOutWeight
    } else {
        Role::GateOutBias
    }
}

/// Shape (rows, cols) of the `i`-th tensor: a weight maps its input width
/// (cols) to its output width (rows), except the trunk, stored feature-major;
/// a bias is one row.
pub open spec fn tensor_shape(h: ExportHeader, i: int) -> (nat, nat) {
    let (f, t, a, g) = (h.input_features as nat, h.trunk_width as nat, h.head_width as nat, h.gate_width as nat);
    match tensor_role(i) {
        Role::TrunkWeight => (f, t),
        Role::TrunkBias => (1, t),
        Role::HeadWeight => (a, t),
        Role::HeadBias => (1, a),
        Role::HeadOutWeight => (1, a),
        Role::GateWeight => (g, t),
        Role::GateBias => (1, g),
        Role::GateOutWeight => (1, g),
        _ => (1, 1),
    }
}

/// Bytes of one bucket of the network, from the header's dimensions alone.
pub open spec fn per_bucket_body_size(h: ExportHeader) -> nat {
    let (f, t, a, g) = (h.input_features as nat, h.trunk_width as nat, h.head_width as nat, h.gate_width as nat);
    2 * f * t + 2 * t + 2 * (a * t + 4 * a + a + 4) + (g * t + 4 * g + g + 4)
}

/// Length of a whole file, from the header's dimensions alone.
pub open spec fn file_size(h: ExportHeader) -> nat {
    (HEADER_SIZE + h.bucket_count * per_bucket_body_size(h)) as nat
}

/// `topo` is the network that `h` describes: every tensor in its place with
/// its name, role, shape, width and scale.
pub open spec fn is_network_topology(h: ExportHeader, topo: Seq<TensorSpec>) -> bool {
    &&& topo.len() == TENSOR_COUNT
    &&& forall|i: int|
        0 <= i < TENSOR_COUNT ==> {
            &&& #[trigger] topo[i].name@ == tensor_name(i)
            &&& topo[i].role == tensor_role(i)
            &&& (topo[i].rows as nat, topo[i].cols as nat) == tensor_shape(h, i)
            &&& topo[i].element_width == role_width(topo[i].role)
            &&& topo[i].scale == role_scale(topo[i].role)
        }
}

/// The bytes of one bucket, summed over the tensors of the network, equal the
/// size computed from the header's dimensions; so a file is `file_size(h)` long.
pub proof fn lemma_network_size(h: ExportHeader, topo: Seq<TensorSpec>)
    requires
        is_network_topology(h, topo),
    ensures
        topology_size(topo) == per_bucket_body_size(h),
        HEADER_SIZE + h.bucket_count * topology_size(topo) == file_size(h),
{
    reveal_with_fuel(prefix_size, 15);
    let (f, t, a, g) = (h.input_features as nat, h.trunk_width as nat, h.head_width as nat, h.gate_width as nat);
    assert forall|i: int| 0 <= i < TENSOR_COUNT implies #[trigger] topo[i].byte_size() == tensor_shape(h, i).0 * tensor_shape(h, i).1 * role_width(tensor_role(i)) by {
        assert(topo[i].name@ == tensor_name(i));
    }
    let sizes = (
        topo[0].byte_size(), topo[1].byte_size(), topo[2].byte_size(), topo[3].byte_size(),
        topo[4].byte_size(), topo[5].byte_size(), topo[6].byte_size(), topo[7].byte_size(),
        topo[8].byte_size(), topo[9].byte_size(), topo[10].byte_size(), topo[11].byte_size(),
        topo[12].byte_size(), topo[13].byte_size(),
    );
    assert(topology_size(topo) == per_bucket_body_size(h)) by (nonlinear_arith)
        requires
            topology_size(topo) == sizes.0 + sizes.1 + sizes.2 + sizes.3 + sizes.4 + sizes.5 + sizes.6
                + sizes.7 + sizes.8 + sizes.9 + sizes.10 + sizes.11 + sizes.12 + sizes.13,
            sizes.0 == f * t * 2,
            sizes.1 == 1 * t * 2,
            sizes.2 == a * t * 1,
            sizes.3 == 1 * a * 4,
            sizes.4 == 1 * a * 1,
            sizes.5 == 1 * 1 * 4,
            sizes.6 == a * t * 1,
            sizes.7 == 1 * a * 4,
            sizes.8 == 1 * a * 1,
            sizes.9 == 1 * 1 * 4,
            sizes.10 == g * t * 1,
            sizes.11 == 1 * g * 4,
            sizes.12 == 1 * g * 1,
            sizes.13 == 1 * 1 * 4,
            per_bucket_body_size(h) == 2 * f * t + 2 * t + 2 * (a * t + 4 * a + a + 4) + (g * t + 4 * g + g + 4),
    ;
}

/// Length of the file that a network with these dimensions exports to.
pub fn expected_file_size(h: &ExportHeader) -> (r: u128)
    ensures
        r == file_size(*h),
{
    let (f, t, a, g) = (h.input_features as u128, h.trunk_width as u128, h.head_width as u128, h.gate_width as u128);
    assert(f * t < 0x1_0000_0000_0000_0000 && a * t < 0x1_0000_0000_0000_0000 && g * t
        < 0x1_0000_0000_0000_0000) by (nonlinear_arith)
        requires
            f < 0x1_0000_0000,
            t < 0x1_0000_0000,
            a < 0x1_0000_0000,
            g < 0x1_0000_0000,
    ;
    let ft: u128 = f * t;
    let at: u128 = a * t;
    let gt: u128 = g * t;
    let body: u128 = 2 * ft + 2 * t + 2 * (at + 4 * a + a + 4) + (gt + 4 * g + g + 4);
    assert(body == 2 * f * t + 2 * t + 2 * (a * t + 4 * a + a + 4) + (g * t + 4 * g + g + 4)) by (nonlinear_arith)
        requires
            ft == f * t,
            at == a * t,
            gt == g * t,
            body == 2 * ft + 2 * t + 2 * (at + 4 * a + a + 4) + (gt + 4 * g + g + 4),
    ;
    let bc: u128 = h.bucket_count as u128;
    assert(bc * body < 0x1_0000_0000 * 0x10_0000_0000_0000_0000) by (nonlinear_arith)
        requires
            bc < 0x1_0000_0000,
            body < 0x10_0000_0000_0000_0000,
    ;
    HEADER_SIZE as u128 + bc * body
}

fn push_spec(topo: &mut Vec<TensorSpec>, name: &str, rows: u32, cols: u32, role: Role)
    ensures
        final(topo)@ == old(topo)@.push(final(topo)@.last()),
        final(topo)@.last().name@ == name@,
        final(topo)@.last().rows == rows,
        final(topo)@.last().cols == cols,
        final(topo)@.last().role == role,
        final(topo)@.last().element_width == role_width(role),
        final(topo)@.last().scale == role_scale(role),
{
    topo.push(TensorSpec::new(name.to_owned(), rows as usize, cols as usize, role));
}

/// The tensors of one bucket of the network that `h` describes, in the order
/// in which they are written.
pub fn network_topology(h: &ExportHeader) -> (r: Vec<TensorSpec>)
    ensures
        is_network_topology(*h, r@),
{
    let (f, t, a, g) = (h.input_features, h.trunk_width, h.head_width, h.gate_width);
    let mut r: Vec<TensorSpec> = Vec::new();
    push_spec(&mut r, "l0_w", f, t, Role::TrunkWeight);
    push_spec(&mut r, "l0_b", 1, t, Role::TrunkBias);
    push_spec(&mut r, "head_a_w", a, t, Role::HeadWeight);
    push_spec(&mut r, "head_a_b", 1, a, Role::HeadBias);
    push_spec(&mut r, "head_a_out_w", 1, a, Role::HeadOutWeight);
    push_spec(&mut r, "head_a_out_b", 1, 1, Role::HeadOutBias);
    push_spec(&mut r, "head_b_w", a, t, Role::HeadWeight);
    push_spec(&mut r, "head_b_b", 1, a, Role::HeadBias);
    push_spec(&mut r, "head_b_out_w", 1, a, Role::HeadOutWeight);
    push_spec(&mut r, "head_b_out_b", 1, 1, Role::HeadOutBias);
    push_spec(&mut r, "gate_w", g, t, Role::GateWeight);
    push_spec(&mut r, "gate_b", 1, g, Role::GateBias);
    push_spec(&mut r, "gate_out_w", 1, g, Role::GateOutWeight);
    push_spec(&mut r, "gate_out_b", 1, 1, Role::GateOutBias);
    r
}

} // verus!
