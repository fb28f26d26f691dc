use pptalk::ids::{CallId, DeviceId};
use pptalk::media::{
    decide_screen_capture_source, default_media_profile, detect_display_session, encode_description,
    encoder_description, kind_name, preview_description, receiver_description, resolve_quality, surface_for,
    DisplaySession, JitterBuffer, MediaDeviceKind, MediaError, ScreenCaptureAvailability, ScreenCapturePlan,
    VideoLimits, VideoSurface, device_kind_of_class, display_session_name, listed_devices, media_device_id, selectable_kind, device_filter,
};
use pptalk::protocol::{MediaDatagram, MediaKind, QualityMode, QualityProfile};

fn profile(mode: QualityMode) -> QualityProfile {
    QualityProfile {
        mode,
        width: 3840,
        height: 2160,
        frames_per_second: 120,
        bitrate_kbps: 30_000,
        codec: Some("h264".into()),
    }
}

#[test]
fn manual_quality_is_never_silently_changed() {
    let requested = profile(QualityMode::Manual);
    let generous = VideoLimits {
        max_width: 3840,
        max_height: 2160,
        max_frames_per_second: 120,
        max_bitrate_kbps: 30_000,
    };
    assert_eq!(
        resolve_quality(&requested, generous, 0.4_f32.to_bits()).expect("supported"),
        requested
    );
    assert!(resolve_quality(
        &requested,
        VideoLimits {
            max_width: 1920,
            ..generous
        },
        0.0_f32.to_bits()
    )
    .is_err());
}

#[test]
fn automatic_quality_adapts_to_limits_and_loss() {
    let resolved = resolve_quality(
        &profile(QualityMode::Automatic),
        VideoLimits {
            max_width: 1920,
            max_height: 1080,
            max_frames_per_second: 60,
            max_bitrate_kbps: 8_000,
        },
        0.12_f32.to_bits(),
    )
    .expect("automatic");
    assert_eq!(
        (resolved.width, resolved.height, resolved.frames_per_second),
        (1920, 1080, 60)
    );
    assert_eq!(resolved.bitrate_kbps, 3_600);
}

#[test]
fn loss_thresholds_follow_the_float_comparison() {
    let limits = VideoLimits {
        max_width: 1920,
        max_height: 1080,
        max_frames_per_second: 60,
        max_bitrate_kbps: 10_000,
    };
    let mut requested = profile(QualityMode::Automatic);
    requested.bitrate_kbps = 10_000;
    let at = |loss: f32| resolve_quality(&requested, limits, loss.to_bits()).expect("automatic").bitrate_kbps;
    assert_eq!(at(0.10), 4_500);
    assert_eq!(at(0.0999), 7_000);
    assert_eq!(at(0.03), 7_000);
    assert_eq!(at(0.0299), 10_000);
    assert_eq!(at(-1.0), 10_000);
    assert_eq!(at(f32::NAN), 10_000);
    assert_eq!(at(f32::INFINITY), 4_500);
    requested.bitrate_kbps = 100;
    assert_eq!(
        resolve_quality(&requested, limits, 0.5_f32.to_bits()).expect("floor").bitrate_kbps,
        64
    );
}

#[test]
fn encoder_bitrate_units_and_low_latency_mode_are_explicit() {
    assert_eq!(encoder_description("openh264enc", 2_500), "openh264enc bitrate=2500000");
    assert_eq!(encoder_description("nvh264enc", 2_500), "nvh264enc bitrate=2500");
    assert!(encoder_description("x264enc", 2_500).contains("tune=zerolatency"));
    assert_eq!(
        encoder_description("openh264enc", u32::MAX),
        format!("openh264enc bitrate={}", u32::MAX)
    );
}

#[test]
fn pipeline_descriptions_name_their_parts() {
    let camera = default_media_profile(MediaKind::Camera);
    let encode = encode_description(&camera, "x264enc bitrate=2500");
    assert!(encode.starts_with("videoconvert ! videoscale ! videorate ! video/x-raw,width=1280,height=720,framerate=30/1 ! x264enc bitrate=2500 ! h264parse"));
    let preview = preview_description(&encode, "autovideosink");
    assert!(preview.starts_with("tee name=capture_tee ! queue ! videoconvert"));
    assert!(preview.ends_with("autovideosink name=preview_sink sync=false qos=false"));
    let audio = receiver_description(MediaKind::Voice, "autoaudiosink");
    assert!(audio.contains("encoding-name=OPUS"));
    assert!(audio.ends_with("! autoaudiosink sync=false"));
    let video = receiver_description(MediaKind::Screen, "glimagesink");
    assert!(video.ends_with("! glimagesink name=video_sink sync=false"));
}

fn packet(sequence: u64) -> MediaDatagram {
    MediaDatagram::new(
        CallId::from_bytes([1; 32]),
        DeviceId::from_bytes([2; 32]),
        MediaKind::Voice,
        sequence,
        sequence * 20_000,
        false,
        vec![u8::try_from(sequence).expect("small test sequence")],
    )
}

#[test]
fn jitter_buffer_reorders_and_drops_late_packets() {
    let mut buffer = JitterBuffer::new(1, 3);
    assert!(buffer.push(packet(2)).is_empty());
    assert_eq!(
        buffer
            .push(packet(1))
            .iter()
            .map(|item| item.sequence)
            .collect::<Vec<_>>(),
        vec![1, 2]
    );
    assert!(buffer.push(packet(1)).is_empty());
    assert_eq!(buffer.dropped(), 1);
}

#[test]
fn jitter_buffer_skips_a_gap_once_full() {
    let mut buffer = JitterBuffer::new(1, 2);
    assert!(buffer.push(packet(3)).is_empty());
    assert!(buffer.push(packet(4)).is_empty());
    let ready = buffer.push(packet(6));
    assert_eq!(ready.iter().map(|item| item.sequence).collect::<Vec<_>>(), vec![3, 4]);
    assert_eq!(buffer.dropped(), 2);
    let ready = buffer.push(packet(5));
    assert_eq!(ready.iter().map(|item| item.sequence).collect::<Vec<_>>(), vec![5, 6]);
    let zero_depth = JitterBuffer::new(10, 0);
    let mut zero_depth = zero_depth;
    assert_eq!(zero_depth.push(packet(10)).len(), 1);
}

#[test]
fn display_session_prefers_wayland_over_xwayland() {
    assert_eq!(detect_display_session(true, false), DisplaySession::X11);
    assert_eq!(detect_display_session(false, true), DisplaySession::Wayland);
    assert_eq!(detect_display_session(true, true), DisplaySession::Wayland);
    assert_eq!(detect_display_session(false, false), DisplaySession::NoSession);
}

#[test]
fn screen_capture_routing_covers_every_failure_mode() {
    let availability = |is_windows, x11, pipewire, d3d11, portal| ScreenCaptureAvailability {
        is_windows,
        has_ximagesrc: x11,
        has_pipewiresrc: pipewire,
        has_d3d11_screencapture: d3d11,
        portal_ready: portal,
    };
    assert!(matches!(
        decide_screen_capture_source(DisplaySession::NoSession, availability(false, true, true, false, false)),
        Err(MediaError::NoDisplaySession)
    ));
    assert_eq!(
        decide_screen_capture_source(DisplaySession::X11, availability(false, true, true, false, false))
            .expect("x11"),
        ScreenCapturePlan::X11
    );
    assert_eq!(
        decide_screen_capture_source(DisplaySession::X11, availability(false, false, true, false, true))
            .expect("portal over x11"),
        ScreenCapturePlan::PipeWirePortal
    );
    assert!(matches!(
        decide_screen_capture_source(DisplaySession::X11, availability(false, false, false, false, true)),
        Err(MediaError::NoScreenBackend(_))
    ));
    assert_eq!(
        decide_screen_capture_source(DisplaySession::Wayland, availability(false, true, true, false, true))
            .expect("wayland portal"),
        ScreenCapturePlan::PipeWirePortal
    );
    assert!(matches!(
        decide_screen_capture_source(DisplaySession::Wayland, availability(false, true, true, false, false)),
        Err(MediaError::PortalUnavailable)
    ));
    assert!(matches!(
        decide_screen_capture_source(DisplaySession::Wayland, availability(false, true, false, false, true)),
        Err(MediaError::NoScreenBackend(_))
    ));
    assert_eq!(
        decide_screen_capture_source(DisplaySession::NoSession, availability(true, false, false, true, false))
            .expect("windows"),
        ScreenCapturePlan::Windows
    );
    assert!(matches!(
        decide_screen_capture_source(DisplaySession::NoSession, availability(true, false, false, false, false)),
        Err(MediaError::NoScreenBackend(_))
    ));
}

#[test]
fn media_error_codes_are_stable_for_the_desktop() {
    assert_eq!(MediaError::NoCameraDevice.code(), Some("no_camera_device"));
    assert_eq!(MediaError::NoDisplaySession.code(), Some("no_display_session"));
    assert_eq!(MediaError::NoScreenBackend(String::new()).code(), Some("no_screen_backend"));
    assert_eq!(MediaError::PortalDenied(String::new()).code(), Some("portal_denied"));
    assert_eq!(MediaError::PortalFailed(String::new()).code(), Some("portal_failed"));
    assert_eq!(MediaError::PortalUnavailable.code(), Some("portal_unavailable"));
    assert_eq!(MediaError::Pipeline(String::new()).code(), None);
}

#[test]
fn surfaces_kinds_and_default_profiles() {
    assert_eq!(surface_for(MediaKind::Camera), Some(VideoSurface::RemoteCamera));
    assert_eq!(surface_for(MediaKind::Screen), Some(VideoSurface::RemoteScreen));
    assert_eq!(surface_for(MediaKind::Voice), None);
    assert_eq!(kind_name(MediaDeviceKind::AudioInput), "audio_input");
    assert_eq!(kind_name(MediaDeviceKind::Window), "window");
    let voice = default_media_profile(MediaKind::SystemAudio);
    assert_eq!((voice.bitrate_kbps, voice.codec.as_deref()), (64, Some("opus")));
    let screen = default_media_profile(MediaKind::Screen);
    assert_eq!((screen.width, screen.height, screen.bitrate_kbps), (1920, 1080, 5_000));
}

#[test]
fn capabilities_list_known_device_classes_with_stable_identifiers() {
    assert_eq!(device_kind_of_class("Audio/Source"), Some(MediaDeviceKind::AudioInput));
    assert_eq!(device_kind_of_class("Audio/Sink"), Some(MediaDeviceKind::AudioOutput));
    assert_eq!(device_kind_of_class("Video/Source/Sink"), Some(MediaDeviceKind::Camera));
    assert_eq!(device_kind_of_class("Sink/Network"), None);
    let expected = blake3::hash(b"Video/Source:USB Camera").to_hex().to_string();
    assert_eq!(media_device_id("Video/Source", "USB Camera"), expected);
    let found = vec![
        ("Audio/Source".to_string(), "Mic A".to_string()),
        ("Sink/Network".to_string(), "Other".to_string()),
        ("Video/Source".to_string(), "Cam".to_string()),
        ("Audio/Source".to_string(), "Mic B".to_string()),
    ];
    let devices = listed_devices(&found);
    assert_eq!(devices.len(), 3);
    assert_eq!((devices[0].label.as_str(), devices[0].is_default), ("Mic A", true));
    assert_eq!((devices[1].kind, devices[1].is_default), (MediaDeviceKind::Camera, true));
    assert_eq!((devices[2].label.as_str(), devices[2].is_default), ("Mic B", false));
    assert_eq!(devices[2].id, media_device_id("Audio/Source", "Mic B"));
    assert_eq!(display_session_name(true, false, DisplaySession::X11), "windows");
    assert_eq!(display_session_name(false, true, DisplaySession::X11), "macos");
    assert_eq!(display_session_name(false, false, DisplaySession::Wayland), "wayland");
    assert_eq!(display_session_name(false, false, DisplaySession::NoSession), "none");
}

#[test]
fn only_inputs_outputs_and_cameras_are_selected_by_device() {
    for kind in [MediaDeviceKind::AudioInput, MediaDeviceKind::AudioOutput, MediaDeviceKind::Camera] {
        assert_eq!(selectable_kind(kind_name(kind)), Some(kind));
    }
    assert_eq!(selectable_kind("screen"), None);
    assert_eq!(selectable_kind("Camera"), None);
    assert_eq!(device_filter(MediaDeviceKind::AudioInput), Some("Audio/Source"));
    assert_eq!(device_filter(MediaDeviceKind::AudioOutput), Some("Audio/Sink"));
    assert_eq!(device_filter(MediaDeviceKind::Camera), Some("Video/Source"));
    assert_eq!(device_filter(MediaDeviceKind::Window), None);
}

#[test]
fn jitter_buffer_holds_the_last_sequence_number_until_its_turn() {
    let mut buffer = JitterBuffer::new(1, 3);
    let last = MediaDatagram::new(
        CallId::from_bytes([1; 32]),
        DeviceId::from_bytes([2; 32]),
        MediaKind::Voice,
        u64::MAX,
        0,
        false,
        vec![0],
    );
    assert!(buffer.push(last).is_empty());
    assert_eq!(buffer.dropped(), 0);
    assert_eq!(buffer.push(packet(1)).iter().map(|item| item.sequence).collect::<Vec<_>>(), vec![1]);
}
