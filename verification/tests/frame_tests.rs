use styx::format::{ColorSpace, FourCc, MediaFormat, Resolution};
use styx::frame::{
    align_up, plane_layout_from_dims, plane_layout_with_stride, FrameAllocation, FrameHeader, FramePlaneDescriptor,
    FrameValidationError, PlaneLayout,
};
use styx::meta::{FrameMeta, FrameMutability, FrameResidency};
use styx::rows::{copy_slice_to_visible_rows, visible_rows_of, PlaneMut, VisibleRows, VisibleRowsMut};

fn single_plane(fmt: MediaFormat, timestamp: u64, len: usize, stride: usize) -> FrameHeader {
    FrameHeader::owned(
        FrameMeta::new(fmt, timestamp),
        vec![PlaneLayout { offset: 0, len, stride }],
    )
}

#[test]
fn owned_mjpeg_frames_default_to_compressed_packet_residency() {
    let res = Resolution::new(2, 2).unwrap();
    let fmt = MediaFormat::new(FourCc::MJPG, res, ColorSpace::Srgb);
    let frame = single_plane(fmt, 7, 8, 8);

    assert_eq!(frame.residency(), FrameResidency::CompressedPacket);
    assert_eq!(frame.mutability(), FrameMutability::Mutable);
    assert!(frame.has_host_readable_bytes());
    assert!(frame.has_host_writable_bytes());
}

#[test]
fn frame_reports_layout_info_and_visible_row_bytes() {
    let res = Resolution::new(4, 2).unwrap();
    let fmt = MediaFormat::new(FourCc::BGR3, res, ColorSpace::Srgb);
    let layout = plane_layout_from_dims(res.width, res.height, 3);
    let frame = single_plane(fmt, 7, layout.len, layout.stride);

    assert_eq!(frame.first_plane_visible_row_bytes(), Some(12));
    assert!(frame.validate_plane_layouts(false).is_ok());
}

#[test]
fn frame_allocate_host_owned_uses_format_layout() {
    let res = Resolution::new(4, 2).unwrap();
    let fmt = MediaFormat::new(FourCc::BGR3, res, ColorSpace::Srgb);

    let frame = FrameHeader::allocate_host_owned(fmt, 9).unwrap();

    assert_eq!(frame.residency(), FrameResidency::HostOwned);
    assert_eq!(frame.mutability(), FrameMutability::Mutable);
    assert_eq!(frame.layouts.len(), 1);
    assert_eq!(frame.first_plane_visible_row_bytes(), Some(12));
    let buf = vec![0u8; frame.layouts[0].len];
    let rows = visible_rows_of(&frame, 0, false, Some(&buf)).unwrap();
    assert_eq!(rows.len(), 2);
    assert_eq!(rows.row_bytes(), 12);
    assert_eq!(rows.stride(), 12);
}

#[test]
fn frame_allocation_can_align_strides_and_plane_lengths() {
    let res = Resolution::new(5, 3).unwrap();
    let fmt = MediaFormat::new(FourCc::BGR3, res, ColorSpace::Srgb);

    let frame = FrameHeader::allocate(FrameAllocation {
        format: fmt,
        timestamp: 9,
        mutability: FrameMutability::Mutable,
        residency: FrameResidency::HostOwned,
        stride_alignment: Some(16),
        plane_alignment: Some(64),
    })
    .unwrap();

    let shape = frame.plane_shape(0).unwrap();
    assert_eq!(shape.row_bytes, 15);
    assert_eq!(shape.stride, 16);
    assert_eq!(shape.len, 64);
    assert!(!frame.is_tightly_packed().unwrap());
    assert_eq!(frame.visible_payload_bytes().unwrap(), 45);
}

#[test]
fn allocate_like_layout_with_timestamp_preserves_layout_only() {
    let res = Resolution::new(3, 2).unwrap();
    let fmt = MediaFormat::new(FourCc::BGR3, res, ColorSpace::Srgb);
    let frame = single_plane(fmt, 7, 24, 12);

    let allocated = frame.allocate_like_layout_with_timestamp(99).unwrap();

    assert_eq!(allocated.meta.timestamp, 99);
    assert_eq!(allocated.meta.format, fmt);
    assert_eq!(allocated.layouts, frame.layouts);
    assert_eq!(allocated.residency(), FrameResidency::HostOwned);
    assert_eq!(allocated.mutability(), FrameMutability::Mutable);
}

#[test]
fn visible_rows_hide_stride_padding() {
    let res = Resolution::new(3, 2).unwrap();
    let fmt = MediaFormat::new(FourCc::BGR3, res, ColorSpace::Srgb);
    let frame = single_plane(fmt, 7, 24, 12);
    let buf = vec![0u8; 24];

    let rows = visible_rows_of(&frame, 0, false, Some(&buf)).unwrap();

    assert_eq!(rows.len(), 2);
    assert_eq!(rows.row_bytes(), 9);
    assert_eq!(rows.stride(), 12);
    assert_eq!(rows.row(0).unwrap().data().len(), 9);
    assert_eq!(rows.row(1).unwrap().data().len(), 9);
}

#[test]
fn planes_visible_returns_all_plane_row_views() {
    let res = Resolution::new(5, 3).unwrap();
    let fmt = MediaFormat::new(FourCc::NV12, res, ColorSpace::Bt709);
    let frame = FrameHeader::allocate_host_owned(fmt, 10).unwrap();
    let buffers: Vec<Vec<u8>> = frame
        .layouts
        .iter()
        .map(|l| vec![0u8; l.offset + l.len])
        .collect();

    let planes: Vec<VisibleRows> = (0..frame.layouts.len())
        .map(|i| visible_rows_of(&frame, i, false, Some(&buffers[i])).unwrap())
        .collect();

    assert_eq!(planes.len(), 2);
    assert_eq!(planes[0].len(), 3);
    assert_eq!(planes[0].row_bytes(), 5);
    assert_eq!(planes[1].len(), 2);
    assert_eq!(planes[1].row_bytes(), 5);
}

#[test]
fn plane_shape_reports_visible_dimensions_and_stride() {
    let res = Resolution::new(5, 3).unwrap();
    let fmt = MediaFormat::new(FourCc::I420, res, ColorSpace::Bt709);
    let frame = FrameHeader::allocate_host_owned(fmt, 11).unwrap();

    let luma = frame.plane_shape(0).unwrap();
    let chroma = frame.plane_shape(1).unwrap();

    assert_eq!(luma.width, 5);
    assert_eq!(luma.height, 3);
    assert_eq!(luma.row_bytes, 5);
    assert_eq!(luma.stride, 5);
    assert_eq!(chroma.width, 3);
    assert_eq!(chroma.height, 2);
    assert_eq!(chroma.row_bytes, 3);
    assert_eq!(chroma.stride, 3);
}

#[test]
fn contiguous_visible_plane_fast_path_rejects_padding() {
    let res = Resolution::new(3, 2).unwrap();
    let fmt = MediaFormat::new(FourCc::BGR3, res, ColorSpace::Srgb);
    let tight = FrameHeader::allocate_host_owned(fmt, 1).unwrap();
    let tight_buf = vec![0u8; tight.layouts[0].len];
    let padded = single_plane(fmt, 2, 24, 12);
    let padded_buf = vec![0u8; 24];

    assert_eq!(
        visible_rows_of(&tight, 0, false, Some(&tight_buf))
            .unwrap()
            .try_as_contiguous()
            .unwrap()
            .unwrap()
            .len(),
        18
    );
    assert!(visible_rows_of(&padded, 0, false, Some(&padded_buf))
        .unwrap()
        .try_as_contiguous()
        .unwrap()
        .is_none());
}

#[test]
fn tightness_and_visible_payload_ignore_padding() {
    let res = Resolution::new(3, 2).unwrap();
    let fmt = MediaFormat::new(FourCc::BGR3, res, ColorSpace::Srgb);
    let tight = FrameHeader::allocate_host_owned(fmt, 1).unwrap();
    let padded = single_plane(fmt, 2, 24, 12);

    assert!(tight.is_tightly_packed().unwrap());
    assert!(!padded.is_tightly_packed().unwrap());
    assert_eq!(tight.visible_payload_bytes().unwrap(), 18);
    assert_eq!(padded.visible_payload_bytes().unwrap(), 18);
    assert_eq!(padded.payload_bytes(), 24);
}

#[test]
fn visible_rows_mut_only_exposes_visible_bytes() {
    let mut plane = vec![0u8; 24];
    let mut src = vec![1u8; 9];
    src.extend_from_slice(&[2u8; 9]);

    let written = copy_slice_to_visible_rows(&mut plane, 12, 9, 2, &src).unwrap();

    assert_eq!(written, 18);
    assert_eq!(&plane[0..9], &[1; 9]);
    assert_eq!(&plane[9..12], &[0; 3]);
    assert_eq!(&plane[12..21], &[2; 9]);
    assert_eq!(&plane[21..24], &[0; 3]);
}

#[test]
fn visible_plane_copy_helpers_preserve_padding() {
    let res = Resolution::new(3, 2).unwrap();
    let fmt = MediaFormat::new(FourCc::BGR3, res, ColorSpace::Srgb);
    let frame = single_plane(fmt, 7, 24, 12);
    let mut plane = vec![0u8; 24];
    let src: Vec<u8> = (0..18).collect();

    let written = copy_slice_to_visible_rows(&mut plane, 12, 9, 2, &src).unwrap();
    let mut copied = vec![0; 18];
    let read = visible_rows_of(&frame, 0, false, Some(&plane))
        .unwrap()
        .copy_to_slice(&mut copied)
        .unwrap();

    assert_eq!(written, 18);
    assert_eq!(read, 18);
    assert_eq!(copied, src);
    assert_eq!(&plane[9..12], &[0; 3]);
    assert_eq!(&plane[21..24], &[0; 3]);
}

#[test]
fn contiguous_visible_plane_mut_exposes_tight_buffer() {
    let res = Resolution::new(3, 2).unwrap();
    let fmt = MediaFormat::new(FourCc::BGR3, res, ColorSpace::Srgb);
    let frame = FrameHeader::allocate_host_owned(fmt, 1).unwrap();
    let mut plane = vec![0u8; frame.layouts[0].len];

    copy_slice_to_visible_rows(&mut plane, 9, 9, 2, &[7u8; 18]).unwrap();

    assert_eq!(
        visible_rows_of(&frame, 0, false, Some(&plane))
            .unwrap()
            .try_as_contiguous()
            .unwrap()
            .unwrap(),
        &[7; 18]
    );
}

#[test]
fn nv12_allocation_uses_two_plane_420_layout() {
    let res = Resolution::new(5, 3).unwrap();
    let fmt = MediaFormat::new(FourCc::NV12, res, ColorSpace::Bt709);

    let frame = FrameHeader::allocate_host_owned(fmt, 10).unwrap();

    assert!(frame.validate_plane_layouts(false).is_ok());
    let layouts = &frame.layouts;
    assert_eq!(layouts.len(), 2);
    assert_eq!(layouts[0].stride, 5);
    assert_eq!(layouts[0].len, 15);
    assert_eq!(layouts[1].stride, 5);
    assert_eq!(layouts[1].len, 10);
    let buf = vec![0u8; layouts[1].offset + layouts[1].len];
    assert_eq!(visible_rows_of(&frame, 1, false, Some(&buf)).unwrap().len(), 2);
}

#[test]
fn i420_allocation_uses_three_plane_420_layout() {
    let res = Resolution::new(5, 3).unwrap();
    let fmt = MediaFormat::new(FourCc::I420, res, ColorSpace::Bt709);

    let frame = FrameHeader::allocate_host_owned(fmt, 11).unwrap();

    assert!(frame.validate_plane_layouts(false).is_ok());
    let layouts = &frame.layouts;
    assert_eq!(layouts.len(), 3);
    assert_eq!(layouts[0].stride, 5);
    assert_eq!(layouts[0].len, 15);
    assert_eq!(layouts[1].stride, 3);
    assert_eq!(layouts[1].len, 6);
    assert_eq!(layouts[2].stride, 3);
    assert_eq!(layouts[2].len, 6);
    let buf = vec![0u8; layouts[2].offset + layouts[2].len];
    assert_eq!(visible_rows_of(&frame, 2, false, Some(&buf)).unwrap().len(), 2);
}

#[test]
fn shared_plane_address_space_rejects_overlapping_layouts() {
    let res = Resolution::new(4, 2).unwrap();
    let fmt = MediaFormat::new(FourCc::NV12, res, ColorSpace::Bt709);
    let frame = FrameHeader::over_external(
        FrameMeta::new(fmt, 3),
        vec![
            PlaneLayout { offset: 0, len: 8, stride: 4 },
            PlaneLayout { offset: 4, len: 4, stride: 4 },
        ],
        FrameResidency::HostExternal,
    );

    let err = frame.validate_plane_layouts(true).unwrap_err();
    assert!(matches!(
        err,
        FrameValidationError::PlaneRangeOverlap { left: 0, right: 1 }
    ));
}

#[test]
fn frame_rejects_too_small_stride_for_visible_rows() {
    let res = Resolution::new(4, 2).unwrap();
    let fmt = MediaFormat::new(FourCc::BGR3, res, ColorSpace::Srgb);
    let frame = single_plane(fmt, 7, 8, 4);

    let err = frame.validate_plane_layouts(false).unwrap_err();
    assert!(matches!(
        err,
        FrameValidationError::PlaneStrideTooSmall {
            visible_row_bytes: 12,
            ..
        }
    ));
}

#[test]
fn frame_descriptor_round_trips_layout_metadata() {
    let res = Resolution::new(4, 2).unwrap();
    let fmt = MediaFormat::new(FourCc::NV12, res, ColorSpace::Bt709);
    let frame = FrameHeader::owned(
        FrameMeta::new(fmt, 1234),
        vec![
            PlaneLayout { offset: 0, len: 8, stride: 4 },
            PlaneLayout { offset: 8, len: 4, stride: 4 },
        ],
    );

    let descriptor = frame.descriptor();
    assert_eq!(descriptor.width, 4);
    assert_eq!(descriptor.height, 2);
    assert_eq!(descriptor.fourcc, FourCc::NV12);
    assert_eq!(descriptor.timestamp, 1234);
    assert_eq!(descriptor.color, ColorSpace::Bt709);
    assert_eq!(descriptor.layouts(), frame.layouts);
    let meta = descriptor.to_meta().unwrap();
    assert_eq!(meta.format, fmt);
    assert_eq!(meta.timestamp, 1234);
}

#[test]
fn plane_descriptor_converts_both_ways() {
    let layout = PlaneLayout { offset: 3, len: 9, stride: 4 };
    let desc = FramePlaneDescriptor::from(layout);
    assert_eq!(desc, FramePlaneDescriptor { offset: 3, len: 9, stride: 4 });
    assert_eq!(PlaneLayout::from(desc), layout);
}

#[test]
fn external_frames_are_read_only_and_report_backing_residency() {
    let fmt = MediaFormat::srgb(FourCc::RG24, 2, 1).unwrap();
    let frame = FrameHeader::over_external(
        FrameMeta::new(fmt, 99),
        vec![PlaneLayout { offset: 0, len: 6, stride: 6 }],
        FrameResidency::Dmabuf,
    );
    assert!(frame.is_external());
    assert_eq!(frame.residency(), FrameResidency::Dmabuf);
    assert_eq!(frame.mutability(), FrameMutability::ReadOnly);
    assert_eq!(frame.payload_bytes(), 6);
    assert!(!frame.has_host_readable_bytes());
    let owned = frame.materialized();
    assert!(!owned.is_external());
    assert_eq!(owned.residency(), FrameResidency::HostOwned);
    assert_eq!(owned.mutability(), FrameMutability::Mutable);
}

#[test]
fn align_up_rounds_to_power_of_two_multiples() {
    assert_eq!(align_up(15, Some(16)), Ok(16));
    assert_eq!(align_up(45, Some(64)), Ok(64));
    assert_eq!(align_up(64, Some(64)), Ok(64));
    assert_eq!(align_up(7, None), Ok(7));
    assert_eq!(align_up(7, Some(3)), Err(FrameValidationError::InvalidAlignment(3)));
}

#[test]
fn copy_to_slice_rejects_short_destination() {
    let plane = vec![1u8; 24];
    let rows = VisibleRows::new(&plane, 12, 9, 2);
    let mut small = vec![0u8; 10];
    assert_eq!(
        rows.copy_to_slice(&mut small),
        Err(FrameValidationError::BufferTooSmall { expected: 18, actual: 10 })
    );
}

#[test]
fn owned_frames_report_access_and_span() {
    let res = Resolution::new(4, 2).unwrap();
    let fmt = MediaFormat::new(FourCc::BGR3, res, ColorSpace::Srgb);
    let layout = plane_layout_with_stride(res.width, res.height, 16);
    assert_eq!(layout, PlaneLayout { offset: 0, len: 32, stride: 16 });
    let frame = single_plane(fmt, 3, layout.len, layout.stride);
    assert!(frame.can_read_planes());
    assert!(frame.can_write_planes());
    assert!(frame.can_materialize_without_copy());
    assert_eq!(frame.backing_span_len(), 32);
    let grey = MediaFormat::new(FourCc::GREY, res, ColorSpace::Unknown);
    let like = frame.allocate_like(grey).unwrap();
    assert_eq!(like.meta.format, grey);
    assert_eq!(like.meta.timestamp, 3);
    assert_eq!(like.residency(), FrameResidency::HostOwned);
}

#[test]
fn writable_rows_change_only_visible_bytes() {
    let mut plane = [0u8; 10];
    let mut rows = VisibleRowsMut::new(&mut plane, 4, 3, 3);
    assert_eq!((rows.len(), rows.row_bytes(), rows.stride(), rows.visible_len()), (3, 3, 4, 9));
    assert!(!rows.is_empty());
    let mut seen = Vec::new();
    rows.for_each_row_mut(|index, mut row| {
        seen.push(index);
        for b in row.data().iter_mut() {
            *b = index as u8 + 1;
        }
    });
    assert_eq!(seen, vec![0, 1]);
    assert_eq!(plane, [1, 1, 1, 0, 2, 2, 2, 0, 0, 0]);
}

#[test]
fn writable_planes_expose_bytes_and_stride() {
    let mut bytes = [5u8; 4];
    let mut plane = PlaneMut::new(&mut bytes, 2);
    assert_eq!(plane.stride(), 2);
    plane.data()[1] = 9;
    assert_eq!(bytes, [5, 9, 5, 5]);
}

#[test]
fn visible_rows_iter_stops_at_the_first_row_past_the_data() {
    let data: Vec<u8> = (0..10u8).collect();
    let rows = VisibleRows::new(&data, 4, 3, 4);
    let got: Vec<Vec<u8>> = rows.iter().iter().map(|r| r.data().to_vec()).collect();
    assert_eq!(got, vec![vec![0, 1, 2], vec![4, 5, 6]]);
    let full = VisibleRows::new(&data, 4, 2, 3);
    assert_eq!(full.iter().len(), 3);
}
