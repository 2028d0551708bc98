use tacklecast::capture::{CaptureFrame, PixelFormat};
use tacklecast::frames::copy_plane;
use tacklecast::interop::{plan_shared_buffers, SharedBufferFailure, NUM_BUFFER_SETS};
use tacklecast::pattern::interleave;
use tacklecast::planes::{deinterleave_nv12, fits_rows, pad_rows, plane_sizes, PlaneSizes};
use tacklecast::render::{
    can_upload, choose_alpha_mode, choose_present_mode, choose_surface_format, chroma_size,
    draw_step, plan_surface, texture_extent, upload_frame, Acquired, AlphaMode, DrawStep,
    PresentMode, RenderError, SurfaceFormat, SurfaceSize, VideoKey, VideoUniforms,
};

#[test]
fn nv12_deinterleave_splits_uv_pairs() {
    let (u_plane, v_plane) = deinterleave_nv12(4, 2, &[10, 20, 30, 40]);
    assert_eq!(u_plane, vec![10, 30]);
    assert_eq!(v_plane, vec![20, 40]);
}

#[test]
fn pairs_come_apart_and_together() {
    let pairs: Vec<u8> = (0..24).collect();
    let (u_plane, v_plane) = deinterleave_nv12(6, 8, &pairs);
    assert_eq!(interleave(&u_plane, &v_plane), pairs);
    assert_eq!(deinterleave_nv12(1, 9, &[]), (vec![], vec![]));
}

#[test]
fn rows_are_laid_out_at_their_pitch() {
    let data: Vec<u8> = (0..200u32).map(|i| i as u8).collect();
    let (laid_out, pitch) = pad_rows(&data, 100, 2);
    assert_eq!(pitch, 256);
    assert_eq!(laid_out.len(), 512);
    assert_eq!(laid_out[..100], data[..100]);
    assert!(laid_out[100..256].iter().all(|byte| *byte == 0));
    assert_eq!(laid_out[256..356], data[100..]);
    assert_eq!(copy_plane(&laid_out, pitch as usize, 100, 2), data);
}

#[test]
fn aligned_rows_are_kept() {
    let data = vec![7u8; 600];
    assert_eq!(pad_rows(&data, 256, 2), (data.clone(), 256));
    assert_eq!(pad_rows(&data, 0, 2), (data.clone(), 0));
    assert!(fits_rows(0, 256, 2));
    assert!(fits_rows(514, 257, 2));
    assert!(!fits_rows(513, 257, 2));
    assert!(!fits_rows(513, usize::MAX, 2));
}

#[test]
fn shared_planes_are_aligned() {
    assert_eq!(
        plane_sizes(1920, 1080),
        PlaneSizes { y_pitch: 2048, uv_pitch: 1024, y_size: 2048 * 1080, uv_size: 1024 * 1080 }
    );
    assert_eq!(
        plane_sizes(2560, 1440),
        PlaneSizes { y_pitch: 2560, uv_pitch: 1280, y_size: 2560 * 1440, uv_size: 1280 * 1440 }
    );
    assert_eq!(plane_sizes(0, 5), PlaneSizes { y_pitch: 0, uv_pitch: 0, y_size: 0, uv_size: 0 });
}

#[test]
fn shared_buffers_come_in_two_sets() {
    let plan = plan_shared_buffers(1920, 1080);
    assert_eq!(NUM_BUFFER_SETS, 2);
    let labels: Vec<&str> = plan.requests.iter().map(|request| request.label.as_str()).collect();
    assert_eq!(labels, vec!["Y-0", "U-0", "V-0", "Y-1", "U-1", "V-1"]);
    let sizes: Vec<u64> = plan.requests.iter().map(|request| request.size).collect();
    let (y, uv) = (2048 * 1080, 1024 * 1080);
    assert_eq!(sizes, vec![y, uv, uv, y, uv, uv]);
    assert_eq!((plan.width, plan.height), (1920, 1080));
    assert_eq!(
        SharedBufferFailure::Create("E_FAIL".to_string()).message("Y-0"),
        "CreateCommittedResource failed for Y-0: E_FAIL"
    );
    assert_eq!(
        SharedBufferFailure::Missing.message("U-1"),
        "CreateCommittedResource returned null for U-1"
    );
    assert_eq!(
        SharedBufferFailure::Share("E_FAIL".to_string()).message("V-1"),
        "CreateSharedHandle failed for V-1: E_FAIL"
    );
}

#[test]
fn surface_is_planned_from_what_is_offered() {
    let plan = plan_surface(
        0,
        720,
        &[SurfaceFormat::Other, SurfaceFormat::Bgra8Unorm, SurfaceFormat::Bgra8Unorm],
        &[PresentMode::Fifo, PresentMode::AutoVsync],
        &[AlphaMode::Other, AlphaMode::Opaque],
    )
    .unwrap();
    assert_eq!(plan.format, 1);
    assert_eq!((plan.width, plan.height), (1, 720));
    assert_eq!(plan.present_mode, PresentMode::AutoVsync);
    assert_eq!(plan.alpha_mode, AlphaMode::Opaque);
    assert_eq!(plan.frame_latency, 2);
    assert!(matches!(
        plan_surface(1, 1, &[], &[], &[]),
        Err(RenderError::SurfaceFormatUnavailable)
    ));
    assert_eq!(choose_surface_format(&[SurfaceFormat::Other, SurfaceFormat::Other]), Some(0));
    assert_eq!(choose_surface_format(&[]), None);
    assert_eq!(choose_present_mode(&[PresentMode::Other]), PresentMode::Fifo);
    assert_eq!(choose_alpha_mode(&[AlphaMode::Other]), AlphaMode::Auto);
}

#[test]
fn surface_keeps_its_extent_while_the_window_has_none() {
    let mut size = SurfaceSize::new(0, 0);
    assert_eq!((size.configured_width, size.configured_height), (1, 1));
    assert!(!size.drawable());
    assert!(size.resize(800, 600));
    assert!(size.drawable());
    assert!(!size.resize(0, 600));
    assert!(!size.drawable());
    assert_eq!((size.width, size.height), (0, 600));
    assert_eq!((size.configured_width, size.configured_height), (800, 600));
}

#[test]
fn lost_surfaces_are_configured_anew() {
    assert!(matches!(draw_step(Acquired::Texture), DrawStep::Draw));
    assert!(matches!(draw_step(Acquired::Lost), DrawStep::Configure));
    assert!(matches!(draw_step(Acquired::Outdated), DrawStep::Configure));
    assert!(matches!(draw_step(Acquired::Timeout), DrawStep::Skip));
    assert!(matches!(
        draw_step(Acquired::OutOfMemory),
        DrawStep::Fail(RenderError::OutOfMemory)
    ));
    match draw_step(Acquired::Other("broken".to_string())) {
        DrawStep::Fail(error) => assert_eq!(error.message(), "surface error: broken"),
        other => panic!("{other:?}"),
    }
}

#[test]
fn render_errors_are_put_in_words() {
    let cause = || "why".to_string();
    assert_eq!(RenderError::AdapterUnavailable.message(), "no suitable GPU adapter found");
    assert_eq!(RenderError::CreateSurface(cause()).message(), "failed to create surface: why");
    assert_eq!(RenderError::OutOfMemory.message(), "GPU ran out of memory");
    assert_eq!(RenderError::RequestDevice(cause()).message(), "failed to request device: why");
    assert_eq!(
        RenderError::SurfaceFormatUnavailable.message(),
        "surface reported no usable formats"
    );
}

#[test]
fn textures_have_an_extent() {
    assert_eq!(texture_extent(0, 7), (1, 7));
    assert_eq!(texture_extent(3, 0), (3, 1));
    assert_eq!(chroma_size(PixelFormat::Nv12, 5, 7), (2, 3));
    assert_eq!(chroma_size(PixelFormat::Yuvj422p, 5, 7), (2, 7));
}

#[test]
fn uniforms_hold_the_format_and_zeros() {
    let mut expected = vec![0u8; 32];
    assert_eq!(VideoUniforms::for_format(PixelFormat::Nv12).bytes(), expected);
    expected[..4].copy_from_slice(&1u32.to_ne_bytes());
    assert_eq!(VideoUniforms::for_format(PixelFormat::Yuvj422p).bytes(), expected);
    let mixed = VideoUniforms { format_mode: 0x0102_0304, padding: [5, 0, 0, 0, 0, 0, 6] };
    let bytes = mixed.bytes();
    assert_eq!(bytes[..4], 0x0102_0304u32.to_ne_bytes());
    assert_eq!(bytes[4..8], 5u32.to_ne_bytes());
    assert_eq!(bytes[28..], 6u32.to_ne_bytes());
}

#[test]
fn interleaved_frames_are_uploaded_plane_by_plane() {
    let frame = CaptureFrame {
        width: 4,
        height: 2,
        format: PixelFormat::Nv12,
        y_data: (1..=8).collect(),
        u_data: vec![10, 20, 30, 40],
        v_data: Vec::new(),
    };
    assert!(can_upload(&frame));
    let upload = upload_frame(None, &frame);
    assert!(upload.rebuild);
    assert_eq!(upload.uniforms, vec![0u8; 32]);
    assert_eq!((upload.y.width, upload.y.height, upload.y.bytes_per_row), (4, 2, 256));
    assert_eq!(upload.y.data[..4], [1, 2, 3, 4]);
    assert_eq!(upload.y.data[256..260], [5, 6, 7, 8]);
    assert_eq!((upload.u.width, upload.u.height), (2, 1));
    assert_eq!(upload.u.data[..3], [10, 30, 0]);
    assert_eq!(upload.v.data[..3], [20, 40, 0]);
    let again = upload_frame(Some(upload.key), &frame);
    assert!(!again.rebuild);
    let other = VideoKey { width: 8, ..upload.key };
    assert!(upload_frame(Some(other), &frame).rebuild);
    let other = VideoKey { format: PixelFormat::Yuvj422p, ..upload.key };
    assert!(upload_frame(Some(other), &frame).rebuild);
}

#[test]
fn planar_frames_are_uploaded_as_they_are() {
    let mut frame = CaptureFrame {
        width: 4,
        height: 2,
        format: PixelFormat::Yuvj422p,
        y_data: (1..=8).collect(),
        u_data: vec![10, 20, 30, 40],
        v_data: vec![50, 60, 70, 80],
    };
    let upload = upload_frame(None, &frame);
    assert_eq!(upload.uniforms[..4], 1u32.to_ne_bytes());
    assert_eq!((upload.u.width, upload.u.height), (2, 2));
    assert_eq!(upload.u.data[256..258], [30, 40]);
    assert_eq!(upload.v.data[..2], [50, 60]);
    frame.v_data.pop();
    assert!(!can_upload(&frame));
    frame.v_data.push(80);
    frame.y_data.pop();
    assert!(!can_upload(&frame));
}
