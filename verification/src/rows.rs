//! Read views of plane bytes: whole planes and their visible rows, with the
//! copies between padded planes and tightly packed buffers.
use vstd::prelude::*;
use vstd::slice::slice_subrange;

use crate::frame::{
    layout_at, plane_row_bytes, plane_rows, readable_residency, sat_add, validate_spec,
    FrameHeader, FrameValidationError,
};
use crate::format::layout_info_of;

verus! {

/// A plane's bytes and row pitch.
#[derive(Debug, Clone, Copy, PartialEq, Eq)]
pub struct Plane<'a> {
    data: &'a [u8],
    stride: usize,
}

impl<'a> Plane<'a> {
    /// The plane's bytes.
    pub closed spec fn bytes(&self) -> Seq<u8> {
        self.data@
    }

    /// The plane's row pitch.
    pub closed spec fn pitch(&self) -> usize {
        self.stride
    }

    /// A plane over `data` with rows `stride` bytes apart.
    pub fn new(data: &'a [u8], stride: usize) -> (r: Self)
        ensures
            r.bytes() == data@,
            r.pitch() == stride,
    {
        Plane { data, stride }
    }

    /// The plane's bytes.
    pub fn data(&self) -> (r: &'a [u8])
        ensures
            r@ == self.bytes(),
    {
        self.data
    }

    /// Bytes from one row to the next.
    pub fn stride(&self) -> (r: usize)
        ensures
            r == self.pitch(),
    {
        self.stride
    }
}

/// One visible row of a plane.
#[derive(Debug, Clone, Copy, PartialEq, Eq)]
pub struct VisibleRow<'a> {
    data: &'a [u8],
}

impl<'a> VisibleRow<'a> {
    /// The row's visible bytes.
    pub closed spec fn bytes(&self) -> Seq<u8> {
        self.data@
    }

    /// The row's visible bytes.
    pub fn data(&self) -> (r: &'a [u8])
        ensures
            r@ == self.bytes(),
    {
        self.data
    }
}

/// The visible rows of a plane: `rows` rows of `row_bytes` bytes, `stride`
/// bytes apart.
#[derive(Debug, Clone, Copy, PartialEq, Eq)]
pub struct VisibleRows<'a> {
    data: &'a [u8],
    stride: usize,
    row_bytes: usize,
    rows: usize,
}

/// Whether row `i` of a plane of `len` bytes fits in the plane.
pub open spec fn row_fits(len: int, stride: int, row_bytes: int, i: int) -> bool {
    i * stride + row_bytes <= len
}

impl<'a> VisibleRows<'a> {
    /// The plane's bytes.
    pub closed spec fn bytes(&self) -> Seq<u8> {
        self.data@
    }

    /// Bytes between row starts.
    pub closed spec fn pitch(&self) -> usize {
        self.stride
    }

    /// Visible bytes per row.
    pub closed spec fn width_bytes(&self) -> usize {
        self.row_bytes
    }

    /// Number of visible rows.
    pub closed spec fn row_count(&self) -> usize {
        self.rows
    }

    /// Row `i` exists and lies inside the plane's bytes.
    pub open spec fn has_row(&self, i: int) -> bool {
        0 <= i < self.row_count() && row_fits(
            self.bytes().len() as int,
            self.pitch() as int,
            self.width_bytes() as int,
            i,
        )
    }

    /// The visible bytes of row `i`.
    pub open spec fn row_spec(&self, i: int) -> Seq<u8> {
        self.bytes().subrange(i * self.pitch(), i * self.pitch() + self.width_bytes())
    }

    /// Visible rows of `data`.
    pub fn new(data: &'a [u8], stride: usize, row_bytes: usize, rows: usize) -> (r: Self)
        ensures
            r.bytes() == data@,
            r.pitch() == stride,
            r.width_bytes() == row_bytes,
            r.row_count() == rows,
    {
        VisibleRows { data, stride, row_bytes, rows }
    }

    /// Number of visible rows.
    pub fn len(&self) -> (r: usize)
        ensures
            r == self.row_count(),
    {
        self.rows
    }

    /// Whether there are no visible rows.
    pub fn is_empty(&self) -> (r: bool)
        ensures
            r == (self.row_count() == 0),
    {
        self.rows == 0
    }

    /// Visible bytes per row.
    pub fn row_bytes(&self) -> (r: usize)
        ensures
            r == self.width_bytes(),
    {
        self.row_bytes
    }

    /// Bytes between row starts.
    pub fn stride(&self) -> (r: usize)
        ensures
            r == self.pitch(),
    {
        self.stride
    }

    /// Visible bytes over all rows, saturating.
    pub fn visible_len(&self) -> (r: usize)
        ensures
            r == crate::frame::sat_mul(self.width_bytes() as int, self.row_count() as int),
    {
        crate::frame::saturating_mul(self.row_bytes, self.rows)
    }

    /// Row `index`, when it exists and lies inside the plane.
    pub fn row(&self, index: usize) -> (r: Option<VisibleRow<'a>>)
        ensures
            r is Some <==> self.has_row(index as int),
            r matches Some(row) ==> row.bytes() == self.row_spec(index as int),
    {
        let len = self.data.len();
        if index >= self.rows {
            return None;
        }
        let start = match index.checked_mul(self.stride) {
            Some(s) => s,
            None => return None,
        };
        let end = match start.checked_add(self.row_bytes) {
            Some(e) => e,
            None => return None,
        };
        if end > len {
            return None;
        }
        Some(VisibleRow { data: slice_subrange(self.data, start, end) })
    }

    /// The rows in order, up to the first that does not fit in the plane:
    /// what iterating over the rows yields, collected.
    pub fn iter(&self) -> (r: Vec<VisibleRow<'a>>)
        ensures
            r@.len() <= self.row_count(),
            forall|i: int| 0 <= i < r@.len() ==> self.has_row(i),
            forall|i: int| 0 <= i < r@.len() ==> #[trigger] r@[i].bytes() == self.row_spec(i),
            r@.len() < self.row_count() ==> !self.has_row(r@.len() as int),
    {
        let mut out: Vec<VisibleRow<'a>> = Vec::new();
        let mut index: usize = 0;
        while index < self.rows
            invariant
                index <= self.row_count(),
                out@.len() == index,
                forall|i: int| 0 <= i < index ==> self.has_row(i),
                forall|i: int| 0 <= i < index ==> #[trigger] out@[i].bytes() == self.row_spec(i),
            decreases self.row_count() - index,
        {
            match self.row(index) {
                Some(row) => out.push(row),
                None => return out,
            }
            index = index + 1;
        }
        out
    }
}

} // verus!
verus! {

/// Copy `src[from..from + n]` into `dst[to..to + n]`.
fn copy_range(dst: &mut [u8], to: usize, src: &[u8], from: usize, n: usize)
    requires
        to + n <= old(dst)@.len(),
        from + n <= src@.len(),
    ensures
        final(dst)@.len() == old(dst)@.len(),
        forall|k: int| 0 <= k < n ==> #[trigger] final(dst)@[to + k] == src@[from + k],
        forall|k: int|
            0 <= k < old(dst)@.len() && !(to <= k < to + n) ==> #[trigger] final(dst)@[k]
                == old(dst)@[k],
{
    let dl = dst.len();
    let sl = src.len();
    let mut i: usize = 0;
    while i < n
        invariant
            i <= n,
            dl == old(dst)@.len(),
            sl == src@.len(),
            to + n <= dst@.len(),
            from + n <= src@.len(),
            dst@.len() == old(dst)@.len(),
            forall|k: int| 0 <= k < i ==> #[trigger] dst@[to + k] == src@[from + k],
            forall|k: int|
                0 <= k < old(dst)@.len() && !(to <= k < to + i) ==> #[trigger] dst@[k]
                    == old(dst)@[k],
        decreases n - i,
    {
        dst[to + i] = src[from + i];
        i = i + 1;
    }
}

} // verus!
verus! {

proof fn lemma_row_offsets(k: int, rb: int, rows: int)
    requires
        0 <= k < rows,
        rb >= 0,
    ensures
        k * rb + rb <= rows * rb,
        rows * rb == rb * rows,
        (k + 1) * rb == k * rb + rb,
        0 <= k * rb,
{
    assert(rows * rb == rb * rows) by (nonlinear_arith);
    assert(k * rb + rb <= rows * rb) by (nonlinear_arith)
        requires
            0 <= k < rows,
            rb >= 0,
    ;
    assert((k + 1) * rb == k * rb + rb) by (nonlinear_arith);
    assert(0 <= k * rb) by (nonlinear_arith)
        requires
            0 <= k,
            rb >= 0,
    ;
}

/// `dst` after the visible rows `0..m` of `rows` were packed into it, each
/// row `k` at `k * row_bytes`, everything else as in `before`.
pub open spec fn packed_rows_into(rows: VisibleRows, before: Seq<u8>, after: Seq<u8>, m: int) -> bool {
    let rb = rows.width_bytes() as int;
    &&& after.len() == before.len()
    &&& forall|k: int, j: int|
        0 <= k < m && 0 <= j < rb ==> #[trigger] after[k * rb + j] == rows.bytes()[k
            * rows.pitch() + j]
    &&& forall|p: int| m * rb <= p < after.len() ==> #[trigger] after[p] == before[p]
}

/// Number of leading visible rows that lie inside the plane.
pub open spec fn fitting_rows(rows: VisibleRows, m: int) -> bool {
    &&& 0 <= m <= rows.row_count()
    &&& forall|k: int| 0 <= k < m ==> rows.has_row(k)
    &&& m < rows.row_count() ==> !rows.has_row(m)
}

impl<'a> VisibleRows<'a> {
    /// Pack the visible rows into `dst`, row after row with no padding.
    ///
    /// Fails when `dst` cannot hold every visible byte, or when the rows
    /// are contiguous but the plane is shorter than them.  Otherwise copies
    /// every row that lies inside the plane, in order, and returns the
    /// visible length.
    pub fn copy_to_slice(&self, dst: &mut [u8]) -> (r: Result<usize, FrameValidationError>)
        requires
            self.width_bytes() * self.row_count() <= usize::MAX || old(dst)@.len() < usize::MAX,
        ensures
            ({
                let len = crate::frame::sat_mul(
                    self.width_bytes() as int,
                    self.row_count() as int,
                );
                &&& old(dst)@.len() < len ==> r == Err::<usize, FrameValidationError>(
                    FrameValidationError::BufferTooSmall {
                        expected: len as usize,
                        actual: old(dst)@.len() as usize,
                    },
                ) && final(dst)@ == old(dst)@
                &&& old(dst)@.len() >= len && self.pitch() == self.width_bytes()
                    && self.bytes().len() < len ==> r == Err::<usize, FrameValidationError>(
                    FrameValidationError::BufferTooSmall {
                        expected: len as usize,
                        actual: self.bytes().len() as usize,
                    },
                ) && final(dst)@ == old(dst)@
                &&& r is Ok ==> r == Ok::<usize, FrameValidationError>(len as usize)
                    && exists|m: int|
                    fitting_rows(*self, m) && packed_rows_into(*self, old(dst)@, final(dst)@, m)
                &&& old(dst)@.len() >= len && !(self.pitch() == self.width_bytes()
                    && self.bytes().len() < len) ==> r is Ok
            }),
    {
        let len = self.visible_len();
        let dst_len = dst.len();
        let src_len = self.data.len();
        if dst_len < len {
            return Err(FrameValidationError::BufferTooSmall { expected: len, actual: dst_len });
        }
        if self.stride == self.row_bytes && src_len < len {
            return Err(FrameValidationError::BufferTooSmall { expected: len, actual: src_len });
        }
        let ghost before = dst@;
        let rb = self.row_bytes;
        let mut k: usize = 0;
        let mut offset: usize = 0;
        let mut done = false;
        while k < self.rows && !done
            invariant
                k <= self.row_count(),
                rb == self.width_bytes(),
                dst_len == dst@.len(),
                len == crate::frame::sat_mul(rb as int, self.row_count() as int),
                dst_len >= len,
                offset == k * rb,
                forall|i: int| 0 <= i < k ==> self.has_row(i),
                done ==> !self.has_row(k as int),
                packed_rows_into(*self, before, dst@, k as int),
                self.width_bytes() * self.row_count() <= usize::MAX || before.len() < usize::MAX,
                before.len() == dst_len,
            decreases self.row_count() - k, (if done { 0int } else { 1int }),
        {
            proof {
                lemma_row_offsets(k as int, rb as int, self.row_count() as int);
            }
            match self.row(k) {
                None => {
                    done = true;
                },
                Some(row) => {
                    let ghost prev = dst@;
                    copy_range(dst, offset, row.data, 0, rb);
                    proof {
                        assert forall|kk: int, j: int|
                            0 <= kk < k + 1 && 0 <= j < rb implies #[trigger] dst@[kk * rb + j]
                            == self.bytes()[kk * self.pitch() + j] by {
                            if kk < k {
                                lemma_row_offsets(kk, rb as int, k as int);
                                assert(dst@[kk * rb + j] == prev[kk * rb + j]);
                            } else {
                                assert(dst@[offset + j] == row.bytes()[j]);
                            }
                        }
                        assert forall|p: int| (k + 1) * rb <= p < dst@.len() implies #[trigger] dst@[p]
                            == before[p] by {
                            assert(dst@[p] == prev[p]);
                        }
                    }
                    k = k + 1;
                    offset = offset + rb;
                },
            }
        }
        proof {
            assert(fitting_rows(*self, k as int));
            assert(packed_rows_into(*self, before, dst@, k as int));
        }
        Ok(len)
    }
}

} // verus!
verus! {

/// Position `p` lies in the row `k` window of `row_bytes` bytes at `k * stride`.
pub open spec fn in_window(p: int, k: int, stride: int, row_bytes: int) -> bool {
    k * stride <= p < k * stride + row_bytes
}

/// `plane` after rows `0..m` of `src` (each `row_bytes` long, packed one after
/// another) were written at `k * stride`, everything else as in `before`.
pub open spec fn unpacked_rows_into(
    src: Seq<u8>,
    stride: int,
    row_bytes: int,
    before: Seq<u8>,
    after: Seq<u8>,
    m: int,
) -> bool {
    &&& after.len() == before.len()
    &&& forall|k: int, j: int|
        0 <= k < m && 0 <= j < row_bytes ==> #[trigger] after[k * stride + j] == src[k
            * row_bytes + j]
    &&& forall|p: int|
        0 <= p < after.len() && !(exists|k: int|
            0 <= k < m && #[trigger] in_window(p, k, stride, row_bytes)) ==> #[trigger] after[p]
            == before[p]
}

/// The first `m` rows are those of the `rows` that fit in the plane, and
/// exactly they were written.
pub open spec fn rows_written(
    src: Seq<u8>,
    stride: int,
    row_bytes: int,
    rows: int,
    before: Seq<u8>,
    after: Seq<u8>,
    m: int,
) -> bool {
    &&& 0 <= m <= rows
    &&& forall|k: int| 0 <= k < m ==> row_fits(before.len() as int, stride, row_bytes, k)
    &&& m < rows ==> !row_fits(before.len() as int, stride, row_bytes, m)
    &&& unpacked_rows_into(src, stride, row_bytes, before, after, m)
}

/// Write tightly packed rows from `src` into the visible part of a plane.
///
/// The plane holds `rows` rows of `row_bytes` visible bytes, `stride` bytes
/// apart.  Fails when `src` holds fewer than the visible bytes, or when the
/// rows are contiguous but the plane is shorter than them; otherwise writes
/// every row that lies inside the plane and leaves the padding untouched.
pub fn copy_slice_to_visible_rows(
    plane: &mut [u8],
    stride: usize,
    row_bytes: usize,
    rows: usize,
    src: &[u8],
) -> (r: Result<usize, FrameValidationError>)
    requires
        row_bytes <= stride,
        rows == 0 || (rows - 1) * stride + row_bytes <= usize::MAX,
        row_bytes * rows <= usize::MAX || src@.len() < usize::MAX,
    ensures
        src@.len() < crate::frame::sat_mul(row_bytes as int, rows as int) ==> r == Err::<
            usize,
            FrameValidationError,
        >(
            FrameValidationError::BufferTooSmall {
                expected: crate::frame::sat_mul(row_bytes as int, rows as int) as usize,
                actual: src@.len() as usize,
            },
        ) && final(plane)@ == old(plane)@,
        src@.len() >= crate::frame::sat_mul(row_bytes as int, rows as int) && stride == row_bytes
            && old(plane)@.len() < crate::frame::sat_mul(row_bytes as int, rows as int) ==> r
            == Err::<usize, FrameValidationError>(
            FrameValidationError::BufferTooSmall {
                expected: crate::frame::sat_mul(row_bytes as int, rows as int) as usize,
                actual: old(plane)@.len() as usize,
            },
        ) && final(plane)@ == old(plane)@,
        src@.len() >= crate::frame::sat_mul(row_bytes as int, rows as int) && !(stride
            == row_bytes && old(plane)@.len() < crate::frame::sat_mul(
            row_bytes as int,
            rows as int,
        )) ==> r == Ok::<usize, FrameValidationError>(
            crate::frame::sat_mul(row_bytes as int, rows as int) as usize,
        ),
        r is Ok ==> exists|m: int|
            rows_written(src@, stride as int, row_bytes as int, rows as int, old(plane)@, final(plane)@, m),
{
    let len = crate::frame::saturating_mul(row_bytes, rows);
    let src_len = src.len();
    let plane_len = plane.len();
    if src_len < len {
        return Err(FrameValidationError::BufferTooSmall { expected: len, actual: src_len });
    }
    if stride == row_bytes && plane_len < len {
        return Err(FrameValidationError::BufferTooSmall { expected: len, actual: plane_len });
    }
    let ghost before = plane@;
    let mut k: usize = 0;
    let mut done = false;
    while k < rows && !done
        invariant
            k <= rows,
            plane_len == plane@.len(),
            before.len() == plane_len,
            src_len == src@.len(),
            len == crate::frame::sat_mul(row_bytes as int, rows as int),
            src_len >= len,
            rows == 0 || (rows - 1) * stride + row_bytes <= usize::MAX,
            row_bytes * rows <= usize::MAX || src@.len() < usize::MAX,
            row_bytes <= stride,
            forall|i: int| 0 <= i < k ==> row_fits(plane_len as int, stride as int, row_bytes as int, i),
            done ==> !row_fits(plane_len as int, stride as int, row_bytes as int, k as int),
            unpacked_rows_into(src@, stride as int, row_bytes as int, before, plane@, k as int),
        decreases rows - k, (if done { 0int } else { 1int }),
    {
        proof {
            lemma_row_offsets(k as int, row_bytes as int, rows as int);
            assert(k * stride <= (rows - 1) * stride) by (nonlinear_arith)
                requires
                    k <= rows - 1,
            ;
        }
        let start = k * stride;
        let end = start + row_bytes;
        if end > plane_len {
            done = true;
        } else {
            let ghost prev = plane@;
            copy_range(plane, start, src, k * row_bytes, row_bytes);
            proof {
                assert forall|kk: int, j: int|
                    0 <= kk < k + 1 && 0 <= j < row_bytes implies #[trigger] plane@[kk * stride + j]
                    == src@[kk * row_bytes + j] by {
                    if kk < k {
                        assert(kk * stride + stride <= k * stride) by (nonlinear_arith)
                            requires
                                0 <= kk < k,
                        ;
                        assert(prev[kk * stride + j] == src@[kk * row_bytes + j]);
                    } else {
                        assert(plane@[start + j] == src@[k * row_bytes + j]);
                    }
                }
                assert forall|p: int|
                    0 <= p < plane@.len() && !(exists|kk: int|
                        0 <= kk < k + 1 && #[trigger] in_window(p, kk, stride as int, row_bytes as int)) implies #[trigger] plane@[p]
                    == before[p] by {
                    assert(!in_window(p, k as int, stride as int, row_bytes as int));
                    assert(plane@[p] == prev[p]);
                }
            }
            k = k + 1;
        }
    }
    proof {
        assert(unpacked_rows_into(src@, stride as int, row_bytes as int, before, plane@, k as int));
        assert(k < rows ==> !row_fits(before.len() as int, stride as int, row_bytes as int, k as int));
        assert(forall|i: int| 0 <= i < k ==> row_fits(before.len() as int, stride as int, row_bytes as int, i));
        assert(before == old(plane)@);
        assert(rows_written(src@, stride as int, row_bytes as int, rows as int, old(plane)@, plane@, k as int));
    }
    Ok(len)
}

} // verus!
verus! {

/// Byte window of a plane's visible rows inside its buffer: start, end,
/// stride, visible bytes per row and visible rows; or why there is none.
pub open spec fn window_spec(header: FrameHeader, i: int) -> Result<
    (usize, usize, usize, usize, usize),
    FrameValidationError,
> {
    let format = header.meta.format;
    let info = layout_info_of(format.code);
    match plane_row_bytes(info, format.resolution.width@ as int, i) {
        None => Err(FrameValidationError::UnknownStorageLayout),
        Some(rb) => match plane_rows(info, format.resolution.height@ as int, i) {
            None => Err(FrameValidationError::UnknownStorageLayout),
            Some(rows) => match layout_at(header.layouts@, i) {
                None => Err(FrameValidationError::NoPlanes),
                Some(l) => Ok(
                    (l.offset, sat_add(l.offset as int, l.len as int) as usize, l.stride, rb, rows),
                ),
            },
        },
    }
}

/// The visible rows of one plane of a frame, over that plane's buffer.
///
/// The frame must be host readable and its layouts valid (and, when
/// `shared_address_space`, free of overlaps); the plane must have a known
/// geometry and a layout, and the buffer must hold the plane's byte range.
pub fn visible_rows_of<'a>(
    header: &FrameHeader,
    plane_index: usize,
    shared_address_space: bool,
    plane_buffer: Option<&'a [u8]>,
) -> (r: Result<VisibleRows<'a>, FrameValidationError>)
    ensures
        !readable_residency(header.residency_spec()) ==> r == Err::<
            VisibleRows<'a>,
            FrameValidationError,
        >(FrameValidationError::NotHostReadable(header.residency_spec())),
        readable_residency(header.residency_spec()) && validate_spec(
            header.meta.format,
            header.layouts@,
        ) is Err ==> r == Err::<VisibleRows<'a>, FrameValidationError>(
            validate_spec(header.meta.format, header.layouts@)->Err_0,
        ),
        readable_residency(header.residency_spec()) && validate_spec(
            header.meta.format,
            header.layouts@,
        ) is Ok && shared_address_space && !crate::frame::no_overlaps(header.layouts@) ==> r
            is Err,
        readable_residency(header.residency_spec()) && validate_spec(
            header.meta.format,
            header.layouts@,
        ) is Ok && (!shared_address_space || crate::frame::no_overlaps(header.layouts@)) ==> (
        match window_spec(*header, plane_index as int) {
            Err(e) => r == Err::<VisibleRows<'a>, FrameValidationError>(e),
            Ok((start, end, stride, rb, rows)) => match plane_buffer {
                Some(buf) => if end <= buf@.len() {
                    r matches Ok(v) && v.bytes() == buf@.subrange(start as int, end as int)
                        && v.pitch() == stride && v.width_bytes() == rb && v.row_count() == rows
                } else {
                    r == Err::<VisibleRows<'a>, FrameValidationError>(
                        FrameValidationError::NoPlanes,
                    )
                },
                None => r == Err::<VisibleRows<'a>, FrameValidationError>(
                    FrameValidationError::NoPlanes,
                ),
            },
        }),
{
    header.require_host_readable()?;
    header.validate_plane_layouts(shared_address_space)?;
    let format = header.meta.format;
    let info = header.layout_info();
    let row_bytes = match crate::frame::visible_row_bytes_for_plane(
        info,
        format.resolution.width.get() as usize,
        plane_index,
    ) {
        Some(rb) => rb,
        None => return Err(FrameValidationError::UnknownStorageLayout),
    };
    let rows = match crate::frame::visible_rows_for_plane(
        info,
        format.resolution.height.get() as usize,
        plane_index,
    ) {
        Some(rows) => rows,
        None => return Err(FrameValidationError::UnknownStorageLayout),
    };
    if plane_index >= header.layouts.len() {
        return Err(FrameValidationError::NoPlanes);
    }
    let layout = header.layouts[plane_index];
    let end = layout.offset.saturating_add(layout.len);
    let buf = match plane_buffer {
        Some(b) => b,
        None => return Err(FrameValidationError::NoPlanes),
    };
    if end > buf.len() {
        return Err(FrameValidationError::NoPlanes);
    }
    Ok(VisibleRows::new(slice_subrange(buf, layout.offset, end), layout.stride, row_bytes, rows))
}

impl<'a> VisibleRows<'a> {
    /// The visible bytes as one slice when rows carry no padding.
    pub fn try_as_contiguous(&self) -> (r: Result<Option<&'a [u8]>, FrameValidationError>)
        ensures
            self.pitch() != self.width_bytes() ==> r == Ok::<
                Option<&'a [u8]>,
                FrameValidationError,
            >(None),
            self.pitch() == self.width_bytes() && self.bytes().len() < crate::frame::sat_mul(
                self.width_bytes() as int,
                self.row_count() as int,
            ) ==> r == Err::<Option<&'a [u8]>, FrameValidationError>(
                FrameValidationError::BufferTooSmall {
                    expected: crate::frame::sat_mul(
                        self.width_bytes() as int,
                        self.row_count() as int,
                    ) as usize,
                    actual: self.bytes().len() as usize,
                },
            ),
            self.pitch() == self.width_bytes() && self.bytes().len() >= crate::frame::sat_mul(
                self.width_bytes() as int,
                self.row_count() as int,
            ) ==> (r matches Ok(Some(s)) && s@ == self.bytes().subrange(
                0,
                crate::frame::sat_mul(self.width_bytes() as int, self.row_count() as int),
            )),
    {
        if self.stride != self.row_bytes {
            return Ok(None);
        }
        let len = self.visible_len();
        let actual = self.data.len();
        if actual < len {
            return Err(FrameValidationError::BufferTooSmall { expected: len, actual });
        }
        Ok(Some(slice_subrange(self.data, 0, len)))
    }
}


/// What a copy into the visible rows wrote, a copy out of them reads back:
/// when rows `0..m` of `src` were written into a plane (each `row_bytes`
/// long, at `k * stride`) and rows `0..m` of the same plane were then
/// packed into `out`, the first `m * row_bytes` bytes of `out` are those of
/// `src`.
pub proof fn lemma_copy_round_trip(
    src: Seq<u8>,
    before: Seq<u8>,
    plane: Seq<u8>,
    rows: VisibleRows,
    out_before: Seq<u8>,
    out: Seq<u8>,
    m: int,
)
    requires
        0 <= m,
        rows.width_bytes() > 0,
        rows.bytes() == plane,
        unpacked_rows_into(src, rows.pitch() as int, rows.width_bytes() as int, before, plane, m),
        packed_rows_into(rows, out_before, out, m),
    ensures
        forall|p: int| 0 <= p < m * rows.width_bytes() ==> #[trigger] out[p] == src[p],
{
    let rb = rows.width_bytes() as int;
    let stride = rows.pitch() as int;
    assert forall|p: int| 0 <= p < m * rb implies #[trigger] out[p] == src[p] by {
        vstd::arithmetic::div_mod::lemma_fundamental_div_mod(p, rb);
        vstd::arithmetic::div_mod::lemma_mod_bound(p, rb);
        let k = p / rb;
        let j = p % rb;
        assert(0 <= k < m) by (nonlinear_arith)
            requires
                p == rb * k + j,
                0 <= j < rb,
                0 <= p < m * rb,
                rb > 0,
        ;
        assert(k * rb + j == p) by (nonlinear_arith)
            requires
                p == rb * k + j,
        ;
        assert(out[k * rb + j] == plane[k * stride + j]);
        assert(plane[k * stride + j] == src[k * rb + j]);
    }
}

} // verus!
verus! {

/// A plane's bytes, writable, and its row pitch.
pub struct PlaneMut<'a> {
    data: &'a mut [u8],
    stride: usize,
}

impl<'a> PlaneMut<'a> {
    /// The plane's bytes.
    pub closed spec fn bytes(&self) -> Seq<u8> {
        self.data@
    }

    /// Bytes between row starts.
    pub closed spec fn pitch(&self) -> usize {
        self.stride
    }

    /// A writable plane over `data`.
    pub fn new(data: &'a mut [u8], stride: usize) -> (r: Self)
        ensures
            r.bytes() == old(data)@,
            r.pitch() == stride,
    {
        PlaneMut { data, stride }
    }

    /// The plane's bytes, to write.
    pub fn data(&mut self) -> (r: &mut [u8])
        ensures
            r@ == old(self).bytes(),
            final(self).bytes() == final(r)@,
            final(self).pitch() == old(self).pitch(),
    {
        self.data
    }

    /// Bytes between row starts.
    pub fn stride(&self) -> (r: usize)
        ensures
            r == self.pitch(),
    {
        self.stride
    }
}

/// A row of bytes `orig` after `written` was copied over its start: as
/// many bytes as both hold come from `written`, the rest stay.
pub open spec fn overwritten(orig: Seq<u8>, written: Seq<u8>) -> Seq<u8> {
    Seq::new(orig.len(), |j: int| if j < written.len() { written[j] } else { orig[j] })
}

/// Some row after row `k` and before row `hi` that fits in a plane of
/// `len` bytes covers byte `p`.
pub open spec fn covered_later(len: int, stride: int, width: int, k: int, hi: int, p: int) -> bool {
    exists|k2: int| k < k2 < hi && row_fits(len, stride, width, k2) && #[trigger] in_window(p, k2, stride, width)
}

/// Row `k` of `plane` holds `orig` overwritten with `written`, wherever no
/// later row before row `hi` overlaps it.
pub open spec fn row_holds(plane: Seq<u8>, stride: int, width: int, k: int, hi: int, orig: Seq<u8>, written: Seq<u8>) -> bool {
    forall|j: int|
        0 <= j < width && !covered_later(plane.len() as int, stride, width, k, hi, k * stride + j)
            ==> #[trigger] plane[k * stride + j] == overwritten(orig, written)[j]
}

/// One visible row of a plane, writable.  The field is public so that
/// contracts can speak of what a callback leaves in the row.
pub struct VisibleRowMut<'a> {
    pub data: &'a mut [u8],
}

impl<'a> VisibleRowMut<'a> {
    /// The row's visible bytes.
    pub closed spec fn bytes(&self) -> Seq<u8> {
        self.data@
    }

    /// The row's visible bytes, to write.
    pub fn data(&mut self) -> (r: &mut [u8])
        ensures
            r@ == old(self).bytes(),
            final(self).bytes() == final(r)@,
    {
        self.data
    }
}

/// The visible rows of a plane, writable: `rows` rows of `row_bytes`
/// bytes, `stride` apart.
pub struct VisibleRowsMut<'a> {
    data: &'a mut [u8],
    stride: usize,
    row_bytes: usize,
    rows: usize,
}

impl<'a> VisibleRowsMut<'a> {
    /// The plane's bytes.
    pub closed spec fn bytes(&self) -> Seq<u8> {
        self.data@
    }

    /// Bytes between row starts.
    pub closed spec fn pitch(&self) -> usize {
        self.stride
    }

    /// Visible bytes per row.
    pub closed spec fn width_bytes(&self) -> usize {
        self.row_bytes
    }

    /// Number of visible rows.
    pub closed spec fn row_count(&self) -> usize {
        self.rows
    }

    /// Byte `p` lies in a visible row that fits in the plane.
    pub open spec fn in_visible_row(&self, p: int) -> bool {
        exists|k: int|
            0 <= k < self.row_count() && row_fits(
                self.bytes().len() as int,
                self.pitch() as int,
                self.width_bytes() as int,
                k,
            ) && #[trigger] in_window(p, k, self.pitch() as int, self.width_bytes() as int)
    }

    /// Writable visible rows of `data`.
    pub fn new(data: &'a mut [u8], stride: usize, row_bytes: usize, rows: usize) -> (r: Self)
        ensures
            r.bytes() == old(data)@,
            r.pitch() == stride,
            r.width_bytes() == row_bytes,
            r.row_count() == rows,
    {
        VisibleRowsMut { data, stride, row_bytes, rows }
    }

    /// Number of visible rows.
    pub fn len(&self) -> (r: usize)
        ensures
            r == self.row_count(),
    {
        self.rows
    }

    /// Whether there are no visible rows.
    pub fn is_empty(&self) -> (r: bool)
        ensures
            r == (self.row_count() == 0),
    {
        self.rows == 0
    }

    /// Visible bytes per row.
    pub fn row_bytes(&self) -> (r: usize)
        ensures
            r == self.width_bytes(),
    {
        self.row_bytes
    }

    /// Bytes between row starts.
    pub fn stride(&self) -> (r: usize)
        ensures
            r == self.pitch(),
    {
        self.stride
    }

    /// Visible bytes over all rows, saturating.
    pub fn visible_len(&self) -> (r: usize)
        ensures
            r == crate::frame::sat_mul(self.width_bytes() as int, self.row_count() as int),
    {
        crate::frame::saturating_mul(self.row_bytes, self.rows)
    }

    /// Hand each visible row that fits in the plane, with its index, to
    /// `f`, in order, as a copy that is written back once `f` returns:
    /// `f` is called on every such row, a row of the visible width that,
    /// where rows do not overlap, holds that row's bytes; that row of the
    /// plane then holds what `f` left in the row, wherever no later row
    /// that fits overlaps it.  Only those rows can change: every other
    /// byte of the plane is left as it was.
    pub fn for_each_row_mut<F>(&mut self, f: F)
        where
            F: FnMut(usize, VisibleRowMut<'_>),
        requires
            forall|i: usize, row: VisibleRowMut<'_>| f.requires((i, row)),
            old(self).row_count() > 0 ==> (old(self).row_count() - 1) * old(self).pitch() + old(self).width_bytes()
                <= usize::MAX,
        ensures
            final(self).pitch() == old(self).pitch(),
            final(self).width_bytes() == old(self).width_bytes(),
            final(self).row_count() == old(self).row_count(),
            final(self).bytes().len() == old(self).bytes().len(),
            forall|p: int|
                0 <= p < old(self).bytes().len() && !old(self).in_visible_row(p) ==> #[trigger] final(self).bytes()[p]
                    == old(self).bytes()[p],
            forall|k: usize|
                k < old(self).row_count() && row_fits(
                    old(self).bytes().len() as int,
                    old(self).pitch() as int,
                    old(self).width_bytes() as int,
                    k as int,
                ) ==> exists|row: VisibleRowMut<'_>|
                    #[trigger] f.ensures((k, row), ()) && row.bytes().len() == old(self).width_bytes() && (old(
                        self,
                    ).pitch() >= old(self).width_bytes() ==> row.bytes() == old(self).bytes().subrange(
                        k * old(self).pitch(),
                        k * old(self).pitch() + old(self).width_bytes(),
                    )) && row_holds(
                        final(self).bytes(),
                        old(self).pitch() as int,
                        old(self).width_bytes() as int,
                        k as int,
                        old(self).row_count() as int,
                        row.bytes(),
                        final(row.data)@,
                    ),
    {
        let ghost start = self.data@;
        let ghost f0 = f;
        let mut f = f;
        let len = self.data.len();
        let mut index: usize = 0;
        while index < self.rows
            invariant
                forall|i: usize, row: VisibleRowMut<'_>| f.requires((i, row)),
                f == f0,
                index <= self.rows,
                self.rows == old(self).rows,
                self.stride == old(self).stride,
                self.row_bytes == old(self).row_bytes,
                self.rows > 0 ==> (self.rows - 1) * self.stride + self.row_bytes <= usize::MAX,
                start == old(self).data@,
                len == start.len(),
                self.data@.len() == len,
                forall|p: int|
                    0 <= p < len && !(exists|k: int|
                        0 <= k < index && row_fits(len as int, self.stride as int, self.row_bytes as int, k)
                            && #[trigger] in_window(p, k, self.stride as int, self.row_bytes as int)) ==> self.data@[p]
                        == start[p],
                forall|k: usize|
                    k < index && row_fits(len as int, self.stride as int, self.row_bytes as int, k as int) ==> exists|
                        row: VisibleRowMut<'_>,
                    |
                        #[trigger] f0.ensures((k, row), ()) && row.bytes().len() == self.row_bytes && (self.stride
                            >= self.row_bytes ==> row.bytes() == start.subrange(
                            k * self.stride,
                            k * self.stride + self.row_bytes,
                        )) && row_holds(
                            self.data@,
                            self.stride as int,
                            self.row_bytes as int,
                            k as int,
                            index as int,
                            row.bytes(),
                            final(row.data)@,
                        ),
            decreases self.rows - index,
        {
            assert(index * self.stride <= (self.rows - 1) * self.stride) by (nonlinear_arith)
                requires
                    index < self.rows,
            ;
            let row_start = index * self.stride;
            let row_end = row_start + self.row_bytes;
            let ghost before = self.data@;
            if row_end <= len {
                let mut row: Vec<u8> = Vec::with_capacity(self.row_bytes);
                let mut j: usize = 0;
                while j < self.row_bytes
                    invariant
                        j <= self.row_bytes,
                        row_start + self.row_bytes <= len,
                        self.data@.len() == len,
                        self.data@ == before,
                        self.stride == old(self).stride,
                        self.row_bytes == old(self).row_bytes,
                        self.rows == old(self).rows,
                        row_start == index * self.stride,
                        row@ == before.subrange(row_start as int, row_start + j),
                    decreases self.row_bytes - j,
                {
                    row.push(self.data[row_start + j]);
                    j = j + 1;
                    assert(row@ =~= before.subrange(row_start as int, row_start + j));
                }
                proof {
                    if self.stride >= self.row_bytes {
                        assert forall|p: int| row_start <= p < row_end implies before[p] == start[p] by {
                            assert forall|k: int| 0 <= k < index implies !in_window(
                                p,
                                k,
                                self.stride as int,
                                self.row_bytes as int,
                            ) by {
                                assert(k * self.stride + self.row_bytes <= index * self.stride) by (nonlinear_arith)
                                    requires
                                        0 <= k < index,
                                        self.row_bytes <= self.stride,
                                ;
                            }
                        }
                        assert(before.subrange(row_start as int, row_end as int) =~= start.subrange(
                            row_start as int,
                            row_end as int,
                        ));
                    }
                }
                let passed = VisibleRowMut { data: row.as_mut_slice() };
                let ghost handed = passed;
                f(index, passed);
                assert(f0.ensures((index, handed), ()));
                assert(row@ == final(handed.data)@);
                let n = if row.len() < self.row_bytes {
                    row.len()
                } else {
                    self.row_bytes
                };
                let mut j: usize = 0;
                while j < n
                    invariant
                        j <= n,
                        n <= self.row_bytes,
                        n <= row@.len(),
                        row_start + self.row_bytes <= len,
                        self.data@.len() == len,
                        self.stride == old(self).stride,
                        self.row_bytes == old(self).row_bytes,
                        self.rows == old(self).rows,
                        row_start == index * self.stride,
                        forall|p: int|
                            0 <= p < len && !in_window(p, index as int, self.stride as int, self.row_bytes as int)
                                ==> self.data@[p] == before[p],
                        forall|q: int| 0 <= q < j ==> #[trigger] self.data@[row_start + q] == row@[q],
                        forall|q: int| j <= q < self.row_bytes ==> #[trigger] self.data@[row_start + q] == before[row_start + q],
                        n == (if row@.len() < self.row_bytes { row@.len() as int } else { self.row_bytes as int }),
                    decreases n - j,
                {
                    self.data[row_start + j] = row[j];
                    j = j + 1;
                }
                proof {
                    assert forall|q: int| 0 <= q < self.row_bytes implies #[trigger] self.data@.subrange(
                        row_start as int,
                        row_end as int,
                    )[q] == overwritten(before.subrange(row_start as int, row_end as int), row@)[q] by {
                        if q < n {
                            assert(self.data@[row_start + q] == row@[q]);
                        } else {
                            assert(self.data@[row_start + q] == before[row_start + q]);
                        }
                    }
                    assert(self.data@.subrange(row_start as int, row_end as int) =~= overwritten(
                        before.subrange(row_start as int, row_end as int),
                        row@,
                    ));
                    let w = self.row_bytes as int;
                    let st = self.stride as int;
                    assert forall|j: int|
                        0 <= j < w && !covered_later(len as int, st, w, index as int, index + 1, index * st + j) implies
                        #[trigger] self.data@[index * st + j] == overwritten(handed.bytes(), final(handed.data)@)[j] by {
                        assert(self.data@.subrange(row_start as int, row_end as int)[j] == self.data@[index * st + j]);
                    }
                    assert(row_holds(self.data@, st, w, index as int, index + 1, handed.bytes(), final(handed.data)@));
                    assert(f0.ensures((index, handed), ()));
                }
            }
            proof {
                assert forall|p: int|
                    0 <= p < len && !(exists|k: int|
                        0 <= k < index + 1 && row_fits(len as int, self.stride as int, self.row_bytes as int, k)
                            && #[trigger] in_window(p, k, self.stride as int, self.row_bytes as int)) implies self.data@[p]
                    == start[p] by {
                    if row_end <= len {
                        assert(row_fits(len as int, self.stride as int, self.row_bytes as int, index as int));
                        assert(!in_window(p, index as int, self.stride as int, self.row_bytes as int));
                    }
                }
            }
            assert(row_end <= len <==> row_fits(len as int, self.stride as int, self.row_bytes as int, index as int));
            proof {
                let w = self.row_bytes as int;
                let st = self.stride as int;
                assert forall|k: usize|
                    k < index + 1 && row_fits(len as int, st, w, k as int) implies exists|row: VisibleRowMut<'_>|
                    #[trigger] f0.ensures((k, row), ()) && row.bytes().len() == self.row_bytes && (self.stride
                        >= self.row_bytes ==> row.bytes() == start.subrange(k * self.stride, k * self.stride
                        + self.row_bytes)) && row_holds(self.data@, st, w, k as int, index + 1, row.bytes(), final(row.data)@) by {
                    if k < index {
                        let row = choose|row: VisibleRowMut<'_>|
                            #[trigger] f0.ensures((k, row), ()) && row.bytes().len() == self.row_bytes && (
                            self.stride >= self.row_bytes ==> row.bytes() == start.subrange(
                                k * self.stride,
                                k * self.stride + self.row_bytes,
                            )) && row_holds(before, st, w, k as int, index as int, row.bytes(), final(row.data)@);
                        assert forall|j: int|
                            0 <= j < w && !covered_later(len as int, st, w, k as int, index + 1, k * st + j) implies
                            #[trigger] self.data@[k * st + j] == overwritten(row.bytes(), final(row.data)@)[j] by {
                            let p = k * st + j;
                            if covered_later(len as int, st, w, k as int, index as int, p) {
                                let k2 = choose|k2: int|
                                    k < k2 < index && row_fits(len as int, st, w, k2) && #[trigger] in_window(p, k2, st, w);
                                assert(covered_later(len as int, st, w, k as int, index + 1, p));
                            }
                            if row_fits(len as int, st, w, index as int) && in_window(p, index as int, st, w) {
                                assert(covered_later(len as int, st, w, k as int, index + 1, p));
                            }
                            assert(before[p] == overwritten(row.bytes(), final(row.data)@)[j]);
                        }
                        assert(f0.ensures((k, row), ()));
                    } else {
                        assert(k == index);
                    }
                }
            }
            index = index + 1;
        }
    }
}

} // verus!
