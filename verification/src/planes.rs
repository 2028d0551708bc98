//! Laying out planes for the GPU.
use vstd::prelude::*;

verus! {

/// `wgpu::COPY_BYTES_PER_ROW_ALIGNMENT`: the GPU interface aligns the rows of copied planes to
/// 256 bytes.
#[verifier::external_body]
pub(crate) fn copy_row_alignment() -> (alignment: u32)
    ensures
        alignment == 256,
{
    wgpu::COPY_BYTES_PER_ROW_ALIGNMENT
}

/// The distance between the starts of two rows of `row_bytes` bytes: the next multiple of 256.
pub open spec fn row_pitch(row_bytes: nat) -> nat {
    (row_bytes + 255) / 256 * 256
}

/// A pitch is aligned, holds the row, and leaves less than one alignment of room behind it.
pub proof fn law_pitch_is_the_next_multiple(row_bytes: nat)
    ensures
        row_pitch(row_bytes) % 256 == 0,
        row_bytes <= row_pitch(row_bytes) < row_bytes + 256,
{
}

/// The rows of a plane at their pitch, with zeros in the gaps. A plane whose rows need no gap
/// is kept as it is.
pub open spec fn padded(data: Seq<u8>, row_bytes: nat, rows: nat) -> Seq<u8> {
    let pitch = row_pitch(row_bytes);
    if row_bytes == pitch {
        data
    } else {
        Seq::new(
            pitch * rows,
            |i: int|
                if i % (pitch as int) < row_bytes {
                    data[(i / pitch as int) * row_bytes + i % (pitch as int)]
                } else {
                    0
                },
        )
    }
}

/// A plane of `len` bytes can be laid out as `rows` rows of `row_bytes` bytes.
pub open spec fn can_pad(len: nat, row_bytes: nat, rows: nat) -> bool {
    &&& row_pitch(row_bytes) <= usize::MAX
    &&& row_bytes != row_pitch(row_bytes) ==> row_bytes * rows <= len && row_pitch(row_bytes) * rows
        <= usize::MAX
}

/// The next multiple of the row alignment.
fn aligned(row_bytes: usize) -> (pitch: usize)
    requires
        row_pitch(row_bytes as nat) <= usize::MAX,
    ensures
        pitch == row_pitch(row_bytes as nat),
{
    let alignment = copy_row_alignment() as usize;
    let over: usize = row_bytes % alignment;
    if over == 0 {
        row_bytes
    } else {
        row_bytes + (alignment - over)
    }
}

/// A plane of `len` bytes can be laid out as `rows` rows of `row_bytes` bytes.
pub fn fits_rows(len: usize, row_bytes: usize, rows: usize) -> (fits: bool)
    ensures
        fits == can_pad(len as nat, row_bytes as nat, rows as nat),
        row_bytes % 256 == 0 ==> fits,
        row_bytes % 256 != 0 ==> (fits <==> row_bytes * rows <= len && row_bytes - row_bytes % 256
            + 256 <= usize::MAX && (row_bytes - row_bytes % 256 + 256) * rows <= usize::MAX),
{
    let alignment = copy_row_alignment() as usize;
    let over: usize = row_bytes % alignment;
    if over == 0 {
        return true;
    }
    let pitch = match row_bytes.checked_add(alignment - over) {
        Some(pitch) => pitch,
        None => return false,
    };
    proof {
        assert(pitch == row_pitch(row_bytes as nat));
        assert(row_bytes * rows <= pitch * rows) by (nonlinear_arith)
            requires
                row_bytes <= pitch,
        ;
    }
    match (pitch.checked_mul(rows), row_bytes.checked_mul(rows)) {
        (Some(_), Some(needed)) => needed <= len,
        _ => false,
    }
}

/// Lays out the rows of a plane for the GPU. Gives the laid out plane and its pitch.
pub fn pad_rows(data: &[u8], row_bytes: usize, rows: usize) -> (laid_out: (Vec<u8>, u32))
    requires
        can_pad(data@.len(), row_bytes as nat, rows as nat),
    ensures
        laid_out.0@ == padded(data@, row_bytes as nat, rows as nat),
        laid_out.1 == row_pitch(row_bytes as nat) as u32,
        row_bytes % 256 == 0 ==> laid_out.0@ == data@,
        row_bytes % 256 != 0 ==> laid_out.0@.len() == (row_bytes - row_bytes % 256 + 256) * rows,
        row_bytes <= u32::MAX - 255 ==> laid_out.1 % 256 == 0 && row_bytes <= laid_out.1 < row_bytes
            + 256,
{
    let pitch = aligned(row_bytes);
    if row_bytes == pitch {
        return (vstd::slice::slice_to_vec(data), #[verifier::truncate] (row_bytes as u32));
    }
    let ghost all = padded(data@, row_bytes as nat, rows as nat);
    let mut plane: Vec<u8> = Vec::new();
    let gap_bytes: usize = pitch - row_bytes;
    let gap: Vec<u8> = vec![0u8; gap_bytes];
    assert(gap@ =~= Seq::new(gap_bytes as nat, |i: int| 0u8));
    let mut row: usize = 0;
    assert(plane@ =~= all.take(0));
    while row < rows
        invariant
            row <= rows,
            pitch == row_pitch(row_bytes as nat),
            row_bytes < pitch,
            row_bytes * rows <= data@.len(),
            gap@ == Seq::new((pitch - row_bytes) as nat, |i: int| 0u8),
            all == padded(data@, row_bytes as nat, rows as nat),
            all.len() == pitch * rows,
            plane@ == all.take(row * pitch),
            0 <= row * pitch <= all.len(),
        decreases rows - row,
    {
        proof {
            assert(data@.len() == data.len());
            assert(0 <= row * row_bytes) by (nonlinear_arith);
            assert((row + 1) * row_bytes <= row_bytes * rows) by (nonlinear_arith)
                requires
                    row + 1 <= rows,
            ;
            assert((row + 1) * row_bytes == row * row_bytes + row_bytes) by (nonlinear_arith);
            assert((row + 1) * pitch <= pitch * rows) by (nonlinear_arith)
                requires
                    row + 1 <= rows,
            ;
            assert((row + 1) * pitch == row * pitch + pitch) by (nonlinear_arith);
        }
        let start: usize = row * row_bytes;
        let line = vstd::slice::slice_subrange(data, start, start + row_bytes);
        let ghost before = plane@;
        plane.extend_from_slice(line);
        plane.extend_from_slice(gap.as_slice());
        proof {
            let end = (row + 1) * pitch;
            assert(plane@.len() == end);
            assert forall|i: int| 0 <= i < end implies plane@[i] == all.take(end)[i] by {
                if i >= row * pitch {
                    vstd::arithmetic::div_mod::lemma_fundamental_div_mod_converse(
                        i,
                        pitch as int,
                        row as int,
                        i - row * pitch,
                    );
                } else {
                    assert(plane@[i] == before[i]);
                }
            }
            assert(plane@ =~= all.take(end));
        }
        row += 1;
    }
    assert(rows * pitch == pitch * rows) by (nonlinear_arith);
    assert(all.take(all.len() as int) =~= all);
    (plane, #[verifier::truncate] (pitch as u32))
}

/// Reading the rows of a laid out plane gives back the plane.
pub proof fn law_laid_out_rows_read_back(data: Seq<u8>, row_bytes: nat, rows: nat)
    requires
        row_bytes * rows <= data.len(),
    ensures
        crate::frames::packed(
            padded(data, row_bytes, rows),
            row_pitch(row_bytes),
            row_bytes,
            rows,
        ) == data.take((row_bytes * rows) as int),
{
    let pitch = row_pitch(row_bytes);
    let laid_out = padded(data, row_bytes, rows);
    let read = crate::frames::packed(laid_out, pitch, row_bytes, rows);
    assert forall|i: int| 0 <= i < row_bytes * rows implies read[i] == data[i] by {
        let row = i / row_bytes as int;
        let column = i % (row_bytes as int);
        assert(row_bytes > 0) by (nonlinear_arith)
            requires
                0 <= i < row_bytes * rows,
        ;
        vstd::arithmetic::div_mod::lemma_fundamental_div_mod(i, row_bytes as int);
        assert(0 <= column < row_bytes);
        assert(0 <= row < rows) by (nonlinear_arith)
            requires
                i == row_bytes * row + column,
                0 <= column < row_bytes,
                0 <= i < row_bytes * rows,
        ;
        assert(row * row_bytes == row_bytes * row) by (nonlinear_arith);
        if row_bytes != pitch {
            let j = row * pitch + column;
            vstd::arithmetic::div_mod::lemma_fundamental_div_mod_converse(j, pitch as int, row, column);
            assert(0 <= j < pitch * rows) by (nonlinear_arith)
                requires
                    j == row * pitch + column,
                    0 <= row < rows,
                    0 <= column < pitch,
            ;
        }
    }
    assert(read =~= data.take((row_bytes * rows) as int));
}

/// Every second byte of `data`, from the first on.
pub open spec fn firsts(data: Seq<u8>, n: nat) -> Seq<u8> {
    Seq::new(n, |i: int| data[2 * i])
}

/// Every second byte of `data`, from the second on.
pub open spec fn seconds(data: Seq<u8>, n: nat) -> Seq<u8> {
    Seq::new(n, |i: int| data[2 * i + 1])
}

/// How many chroma pairs a frame of interleaved chroma has.
pub open spec fn pair_count(width: u32, height: u32) -> nat {
    (width / 2) as nat * (height / 2) as nat
}

/// Takes the interleaved chroma plane of a frame apart.
pub fn deinterleave_nv12(width: u32, height: u32, data: &[u8]) -> (planes: (Vec<u8>, Vec<u8>))
    requires
        2 * pair_count(width, height) <= data@.len(),
    ensures
        planes.0@ == firsts(data@, pair_count(width, height)),
        planes.1@ == seconds(data@, pair_count(width, height)),
        planes.0@.len() == (width / 2) * (height / 2),
        planes.1@.len() == (width / 2) * (height / 2),
        forall|i: int| 0 <= i < planes.0@.len() ==> #[trigger] planes.0@[i] == data@[2 * i],
        forall|i: int| 0 <= i < planes.1@.len() ==> #[trigger] planes.1@[i] == data@[2 * i + 1],
{
    let chroma_width = (width / 2) as usize;
    let chroma_height = (height / 2) as usize;
    assert(data@.len() == data.len());
    let pairs: usize = chroma_width * chroma_height;
    let mut u_plane: Vec<u8> = Vec::new();
    let mut v_plane: Vec<u8> = Vec::new();
    let mut i: usize = 0;
    while i < pairs
        invariant
            i <= pairs,
            2 * pairs <= data@.len(),
            data@.len() <= usize::MAX,
            u_plane@ == firsts(data@, i as nat),
            v_plane@ == seconds(data@, i as nat),
        decreases pairs - i,
    {
        u_plane.push(data[2 * i]);
        v_plane.push(data[2 * i + 1]);
        i += 1;
        assert(u_plane@ =~= firsts(data@, i as nat));
        assert(v_plane@ =~= seconds(data@, i as nat));
    }
    (u_plane, v_plane)
}

/// Taking pairs apart and putting them together again are each other's reverse.
pub proof fn law_pairs_come_apart_and_together(data: Seq<u8>, n: nat, u: Seq<u8>, v: Seq<u8>)
    requires
        2 * n <= data.len(),
        u.len() == v.len(),
    ensures
        crate::pattern::interleaved(firsts(data, n), seconds(data, n)) == data.take((2 * n) as int),
        firsts(crate::pattern::interleaved(u, v), u.len()) == u,
        seconds(crate::pattern::interleaved(u, v), u.len()) == v,
{
    assert(crate::pattern::interleaved(firsts(data, n), seconds(data, n)) =~= data.take(
        (2 * n) as int,
    ));
    assert(firsts(crate::pattern::interleaved(u, v), u.len()) =~= u);
    assert(seconds(crate::pattern::interleaved(u, v), u.len()) =~= v);
}

/// The layout of the planes of a `Yuvj422p` frame in GPU buffers.
#[derive(Debug, Clone, Copy, PartialEq, Eq, Structural)]
pub struct PlaneSizes {
    pub y_pitch: u32,
    pub uv_pitch: u32,
    pub y_size: u64,
    pub uv_size: u64,
}

/// Rounding up by masking is rounding up to a multiple of 256.
proof fn lemma_mask_rounds_up(n: u32, alignment: u32)
    requires
        n <= u32::MAX - 255,
        alignment == 256,
    ensures
        (((n + alignment) - 1) as u32) & !((alignment - 1) as u32) == row_pitch(n as nat),
{
    let raised = (n + 255) as u32;
    assert(raised & !255u32 == raised / 256 * 256) by (bit_vector);
    assert((((n + alignment) - 1) as u32) == raised);
    assert(((alignment - 1) as u32) == 255u32);
}

/// The layout of the planes of a `Yuvj422p` frame in GPU buffers: each row is aligned.
pub fn plane_sizes(width: u32, height: u32) -> (sizes: PlaneSizes)
    requires
        width <= u32::MAX - 256,
    ensures
        sizes.y_pitch == row_pitch(width as nat),
        sizes.uv_pitch == row_pitch((width / 2) as nat),
        sizes.y_size == row_pitch(width as nat) * height,
        sizes.uv_size == row_pitch((width / 2) as nat) * height,
        sizes.y_pitch % 256 == 0,
        width <= sizes.y_pitch < width + 256,
        sizes.uv_pitch % 256 == 0,
        width / 2 <= sizes.uv_pitch < width / 2 + 256,
        sizes.y_size == sizes.y_pitch * height,
        sizes.uv_size == sizes.uv_pitch * height,
{
    let alignment = copy_row_alignment();
    let half: u32 = width / 2;
    proof {
        lemma_mask_rounds_up(width, alignment);
        lemma_mask_rounds_up(half, alignment);
    }
    let y_pitch: u32 = (width + alignment - 1) & !(alignment - 1);
    let uv_pitch: u32 = (half + alignment - 1) & !(alignment - 1);
    proof {
        assert(y_pitch * height <= u64::MAX) by (nonlinear_arith)
            requires
                y_pitch <= u32::MAX,
                height <= u32::MAX,
        ;
        assert(uv_pitch * height <= u64::MAX) by (nonlinear_arith)
            requires
                uv_pitch <= u32::MAX,
                height <= u32::MAX,
        ;
    }
    PlaneSizes {
        y_pitch,
        uv_pitch,
        y_size: y_pitch as u64 * height as u64,
        uv_size: uv_pitch as u64 * height as u64,
    }
}

/// Each row of a laid out plane starts at a multiple of the pitch, holds its bytes in their order,
/// and is followed by zeros up to the next one. Rows that need no gap are left as they are.
pub proof fn law_rows_start_at_the_pitch(
    data: Seq<u8>,
    row_bytes: nat,
    rows: nat,
    row: int,
    column: int,
)
    requires
        row_bytes * rows <= data.len(),
        0 <= row < rows,
        0 <= column < row_pitch(row_bytes),
    ensures
        row_bytes % 256 == 0 ==> padded(data, row_bytes, rows) == data,
        row_bytes % 256 != 0 ==> padded(data, row_bytes, rows).len() == row_pitch(row_bytes) * rows,
        column < row_bytes ==> padded(data, row_bytes, rows)[row * row_pitch(row_bytes) + column]
            == data[row * row_bytes + column],
        column >= row_bytes ==> padded(data, row_bytes, rows)[row * row_pitch(row_bytes) + column]
            == 0,
{
    let pitch = row_pitch(row_bytes);
    let i = row * pitch + column;
    vstd::arithmetic::div_mod::lemma_fundamental_div_mod_converse(i, pitch as int, row, column);
    assert(0 <= i < pitch * rows) by (nonlinear_arith)
        requires
            i == row * pitch + column,
            0 <= row < rows,
            0 <= column < pitch,
    ;
}

/// A plane can be laid out where its bytes are there and the laid out plane can be addressed; one
/// whose rows need no gap always can.
pub proof fn law_what_can_be_laid_out(len: nat, row_bytes: nat, rows: nat)
    requires
        row_bytes <= usize::MAX,
    ensures
        row_bytes % 256 == 0 ==> can_pad(len, row_bytes, rows),
        row_bytes % 256 != 0 && row_bytes * rows <= len && row_bytes - row_bytes % 256 + 256
            <= usize::MAX && (row_bytes - row_bytes % 256 + 256) * rows <= usize::MAX ==> can_pad(
            len,
            row_bytes,
            rows,
        ),
        row_bytes % 256 != 0 && can_pad(len, row_bytes, rows) ==> row_bytes * rows <= len,
{
}

/// The first of each pair go to one plane, the second to the other, in their order.
pub proof fn law_pairs_are_taken_apart_in_order(data: Seq<u8>, n: nat, i: int)
    requires
        0 <= i < n,
    ensures
        firsts(data, n).len() == n,
        seconds(data, n).len() == n,
        firsts(data, n)[i] == data[2 * i],
        seconds(data, n)[i] == data[2 * i + 1],
{
}

}
