use tacklecast::gpu_decode::{
    buffer_sizes, image_info, init_step, output_pitches, released_before_allocation, teardown,
    BufferSizes, DecodePhase, DecodeRun, DecodeStart, GpuDecodeError, ImageInfo, InitStage, InitStep,
    NvjpegChromaSubsampling, NvjpegDecoder, Resource, STATUS_SUCCESS,
};
use tacklecast::libraries::{
    library_name, library_places, toolkit_directory, toolkit_order, toolkit_subdirectory,
    DirectoryEntry, LibraryPlace, LIBRARY_NAMES,
};
use tacklecast::render::can_upload;

fn entry(name: &str, is_directory: bool) -> DirectoryEntry {
    DirectoryEntry { name: name.to_string(), is_directory }
}

#[test]
fn decode_errors_are_put_in_words() {
    assert_eq!(
        GpuDecodeError::Cuda("cuStreamSynchronize", -3).message(),
        "CUDA cuStreamSynchronize failed (error -3)"
    );
    assert_eq!(
        GpuDecodeError::Nvjpeg("nvjpegDecode", 700).message(),
        "nvJPEG nvjpegDecode failed (error 700)"
    );
    assert_eq!(
        GpuDecodeError::InvalidData("empty".to_string()).message(),
        "invalid JPEG data: empty"
    );
}

#[test]
fn setup_goes_through_every_stage() {
    let mut stage = InitStage::InitDriver;
    let mut stages = 1;
    loop {
        match init_step(stage, STATUS_SUCCESS) {
            InitStep::Next(next) => {
                stage = next;
                stages += 1;
            }
            InitStep::Ready => break,
            InitStep::Abandon(_) => panic!("no stage failed"),
        }
    }
    assert_eq!(stage, InitStage::AllocateV);
    assert_eq!(stages, 9);
}

#[test]
fn failed_setup_releases_what_it_holds() {
    let released = |stage: InitStage| match init_step(stage, 2) {
        InitStep::Abandon(resources) => resources,
        other => panic!("{other:?}"),
    };
    assert!(released(InitStage::InitDriver).is_empty());
    assert!(released(InitStage::GetDevice).is_empty());
    assert!(released(InitStage::CreateContext).is_empty());
    assert_eq!(released(InitStage::CreateStream), vec![Resource::Context]);
    assert_eq!(released(InitStage::CreateHandle), vec![Resource::Stream, Resource::Context]);
    assert_eq!(
        released(InitStage::CreateState),
        vec![Resource::Handle, Resource::Stream, Resource::Context]
    );
    assert!(released(InitStage::AllocateY).is_empty());
    assert_eq!(
        released(InitStage::AllocateV),
        vec![
            Resource::BufferU,
            Resource::BufferY,
            Resource::State,
            Resource::Handle,
            Resource::Stream,
            Resource::Context,
        ]
    );
    assert_eq!(released(InitStage::AllocateU), released(InitStage::AllocateV)[1..].to_vec());
    assert_eq!(
        teardown(),
        vec![
            Resource::BufferY,
            Resource::BufferU,
            Resource::BufferV,
            Resource::State,
            Resource::Handle,
            Resource::Stream,
            Resource::Context,
        ]
    );
    assert_eq!(
        released_before_allocation(),
        vec![Resource::BufferY, Resource::BufferU, Resource::BufferV]
    );
}

#[test]
fn images_are_described() {
    assert_eq!(
        image_info(0, 3, 1, 1920, 1080).ok(),
        Some(ImageInfo {
            width: 1920,
            height: 1080,
            subsampling: NvjpegChromaSubsampling::Css422,
            components: 3,
        })
    );
    let failed = image_info(5, 3, 1, 1920, 1080).err().unwrap();
    assert_eq!(failed.message(), "nvJPEG nvjpegGetImageInfo failed (error 5)");
    let codes: Vec<NvjpegChromaSubsampling> =
        (-1..=7).map(NvjpegChromaSubsampling::from_code).collect();
    assert_eq!(
        codes,
        vec![
            NvjpegChromaSubsampling::CssUnknown,
            NvjpegChromaSubsampling::Css444,
            NvjpegChromaSubsampling::Css422,
            NvjpegChromaSubsampling::Css420,
            NvjpegChromaSubsampling::Css440,
            NvjpegChromaSubsampling::Css411,
            NvjpegChromaSubsampling::Css410,
            NvjpegChromaSubsampling::CssGray,
            NvjpegChromaSubsampling::CssUnknown,
        ]
    );
    assert_eq!(output_pitches(1921), [1921, 960, 960, 0]);
    assert_eq!(buffer_sizes(5, 3), BufferSizes { y_size: 15, uv_size: 6 });
}

#[test]
fn only_jpeg_data_is_decoded() {
    let decoder = NvjpegDecoder::new();
    let refused: [&[u8]; 4] = [&[], &[0xff], &[0xff, 0xd9], &[0xfe, 0xd8, 0]];
    for data in refused {
        let error = decoder.start(data).err().unwrap();
        assert_eq!(
            error.message(),
            "invalid JPEG data: data does not start with JPEG SOI marker (FF D8)"
        );
    }
    assert_eq!(decoder.start(&[0xff, 0xd8]).ok(), Some(DecodeStart::QueryInfo));
}

#[test]
fn first_image_sets_the_size() {
    let mut decoder = NvjpegDecoder::new();
    assert_eq!((decoder.alloc_width, decoder.alloc_height), (2560, 1440));
    assert_eq!(decoder.h_y.len(), 2560 * 1440);
    assert_eq!(decoder.h_u.len(), 1280 * 1440);

    assert!(decoder.accept_info(9, 0, 0, 0, 0).is_err());
    assert!(!decoder.validated);
    let info = decoder.accept_info(0, 3, 1, 4, 2).ok().unwrap();
    assert!(decoder.validated);

    let mut run = decoder.ensure_buffers(info.width, info.height);
    assert_eq!(run, DecodeRun { width: 4, height: 2, phase: DecodePhase::AllocateY });
    let mut phases = vec![run.phase];
    while run.phase != DecodePhase::Done {
        if run.phase == DecodePhase::CopyY {
            decoder.h_y.copy_from_slice(&[1, 2, 3, 4, 5, 6, 7, 8]);
        }
        run = decoder.advance(run, STATUS_SUCCESS).ok().unwrap();
        phases.push(run.phase);
    }
    assert_eq!(
        phases,
        vec![
            DecodePhase::AllocateY,
            DecodePhase::AllocateU,
            DecodePhase::AllocateV,
            DecodePhase::Decode,
            DecodePhase::Synchronize,
            DecodePhase::CopyY,
            DecodePhase::CopyU,
            DecodePhase::CopyV,
            DecodePhase::Done,
        ]
    );
    let frame = decoder.finish(run);
    assert_eq!(frame.y_data, vec![1, 2, 3, 4, 5, 6, 7, 8]);
    assert_eq!(frame.u_data, vec![0; 4]);
    assert_eq!(frame.v_data.len(), 4);
    assert!(can_upload(&frame));

    assert_eq!(
        decoder.start(&[0xff, 0xd8]).ok(),
        Some(DecodeStart::Known { width: 4, height: 2 })
    );
    assert_eq!(decoder.ensure_buffers(4, 2).phase, DecodePhase::Decode);
}

#[test]
fn failed_steps_are_reported() {
    let phases = [
        (DecodePhase::AllocateY, "CUDA cuMemAlloc (Y) failed (error 2)"),
        (DecodePhase::AllocateU, "CUDA cuMemAlloc (U) failed (error 2)"),
        (DecodePhase::AllocateV, "CUDA cuMemAlloc (V) failed (error 2)"),
        (DecodePhase::Decode, "nvJPEG nvjpegDecode failed (error 2)"),
        (DecodePhase::Synchronize, "CUDA cuStreamSynchronize failed (error 2)"),
        (DecodePhase::CopyY, "CUDA cuMemcpyDtoH (Y) failed (error 2)"),
        (DecodePhase::CopyU, "CUDA cuMemcpyDtoH (U) failed (error 2)"),
        (DecodePhase::CopyV, "CUDA cuMemcpyDtoH (V) failed (error 2)"),
    ];
    let mut decoder = NvjpegDecoder::new();
    for (phase, message) in phases {
        let run = DecodeRun { width: 2560, height: 1440, phase };
        assert_eq!(decoder.advance(run, 2).err().unwrap().message(), message);
    }
    assert_eq!(decoder.h_y.len(), 2560 * 1440);
}

#[test]
fn newest_toolkit_is_looked_at_first() {
    let entries = [
        entry("v11.8", true),
        entry("v12.4", true),
        entry("v13.0", false),
        entry("v12", true),
    ];
    assert_eq!(toolkit_order(&entries), vec![1, 3, 0]);
    let places = library_places(&entries);
    assert_eq!(places.len(), 18);
    assert_eq!(places[0], LibraryPlace { entry: 1, subdirectory: 0, name: 0 });
    assert_eq!(places[4], LibraryPlace { entry: 1, subdirectory: 1, name: 1 });
    assert_eq!(places[6], LibraryPlace { entry: 3, subdirectory: 0, name: 0 });
    assert_eq!(places[17], LibraryPlace { entry: 0, subdirectory: 1, name: 2 });
    assert!(library_places(&[]).is_empty());

    let versions = [
        entry("v9.2", true),
        entry("old", true),
        entry("v13.2", true),
        entry("v13.10", true),
        entry("v13", true),
        entry("v13.x", true),
        entry("v013.2", true),
        entry("v99999999999999999999999.1", true),
    ];
    assert_eq!(toolkit_order(&versions), vec![7, 3, 2, 6, 4, 0, 5, 1]);
    assert_eq!(library_places(&versions[..3])[0].entry, 2);
}

#[test]
fn library_goes_by_three_names() {
    let names: Vec<&str> = (0..LIBRARY_NAMES).map(library_name).collect();
    assert_eq!(names, vec!["nvjpeg64_13.dll", "nvjpeg64_12.dll", "nvjpeg64_11.dll"]);
    assert_eq!(toolkit_subdirectory(0), "bin/x64");
    assert_eq!(toolkit_subdirectory(1), "bin");
    assert_eq!(
        toolkit_directory(),
        r"C:\Program Files\NVIDIA GPU Computing Toolkit\CUDA"
    );
}
