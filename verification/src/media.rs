//! Media policy: the jitter buffer, the quality rule that never silently
//! changes a manual profile, screen-capture routing, stable error codes, and
//! the text of the pipelines the media backend launches.
use vstd::prelude::*;
use vstd::string::*;
use std::collections::BTreeMap;
use crate::protocol::{MediaDatagram, MediaKind, QualityMode, QualityProfile};
use crate::text::{decimal, occurs_in, push_decimal, same_text, text_contains};
use crate::digest::{blake3_digest, blake3_hash, hex_encode, hex_lower};
use vstd::utf8::encode_utf8;

verus! {

/// Calls `BTreeMap::first_key_value` and keeps the key. Its documentation
/// says it returns the entry with the minimum key, and nothing for an empty
/// map.
#[verifier::external_body]
fn first_key(queue: &BTreeMap<u64, MediaDatagram>) -> (r: Option<u64>)
    ensures
        r is None <==> queue@.len() == 0,
        r matches Some(k) ==> queue@.contains_key(k) && forall|j: u64| #[trigger]
            queue@.contains_key(j) ==> k <= j,
{
    queue.first_key_value().map(|(key, _)| *key)
}

/// The least key of a map.
pub open spec fn least_key(queue: Map<u64, MediaDatagram>) -> u64 {
    choose|k: u64| queue.contains_key(k) && forall|j: u64| #[trigger] queue.contains_key(j) ==> k <= j
}

/// The keys from `start` up to, not including, `end`.
pub open spec fn key_range(start: int, end: int) -> Set<u64> {
    Set::new(|k: u64| start <= k < end)
}

/// The queue once `packet` is admitted: the first packet of a sequence
/// number stays.
pub open spec fn admitted(queue: Map<u64, MediaDatagram>, packet: MediaDatagram) -> Map<u64, MediaDatagram> {
    if queue.contains_key(packet.sequence) {
        queue
    } else {
        queue.insert(packet.sequence, packet)
    }
}

/// Where delivery resumes: at the least queued sequence once the queue holds
/// more than `max_depth` packets, else where it was.
pub open spec fn resume_from(next: u64, max_depth: usize, queue: Map<u64, MediaDatagram>) -> u64 {
    if queue.len() > max_depth {
        least_key(queue)
    } else {
        next
    }
}

/// Whether `ready` is the run of consecutive packets of `queue` from
/// `start` on: each there in order, and the one after the run missing.
pub open spec fn is_run(queue: Map<u64, MediaDatagram>, start: u64, ready: Seq<MediaDatagram>) -> bool {
    &&& forall|j: int|
        0 <= j < ready.len() ==> queue.contains_key((start + j) as u64) && #[trigger] ready[j] == queue[(
        start + j) as u64]
    &&& start + ready.len() <= u64::MAX
    &&& !queue.contains_key((start + ready.len()) as u64)
}

/// Reorders media packets by sequence number, dropping those that arrive
/// after their turn and skipping gaps once more than `max_depth` packets
/// wait.
#[derive(Debug)]
pub struct JitterBuffer {
    next_sequence: u64,
    max_depth: usize,
    queued: BTreeMap<u64, MediaDatagram>,
    dropped: u64,
}

impl JitterBuffer {
    /// The sequence number delivered next.
    pub closed spec fn next(&self) -> u64 {
        self.next_sequence
    }

    /// How many packets may wait before a gap is skipped.
    pub closed spec fn depth(&self) -> usize {
        self.max_depth
    }

    /// The waiting packets, by sequence number.
    pub closed spec fn waiting(&self) -> Map<u64, MediaDatagram> {
        self.queued@
    }

    /// How many packets were dropped or skipped.
    pub closed spec fn dropped_count(&self) -> u64 {
        self.dropped
    }

    /// Every waiting packet is filed under its own sequence number, not
    /// before the next one to deliver, and no more than `max_depth` wait.
    pub open spec fn wf(&self) -> bool {
        &&& self.depth() >= 1
        &&& self.waiting().len() <= self.depth()
        &&& forall|k: u64| #[trigger]
            self.waiting().contains_key(k) ==> self.next() <= k && self.waiting()[k].sequence == k
    }

    /// Whether pushing `packet` keeps the counters within `u64`: the drop
    /// count stays representable, and the run of packets delivered from
    /// where delivery resumes ends before sequence number `u64::MAX` would
    /// be passed.
    pub open spec fn push_fits(&self, packet: MediaDatagram) -> bool {
        if packet.sequence < self.next() {
            self.dropped_count() < u64::MAX
        } else {
            let queue = admitted(self.waiting(), packet);
            let start = resume_from(self.next(), self.depth(), queue);
            &&& self.dropped_count() + (start - self.next()) <= u64::MAX
            &&& exists|k: u64| start <= k && !#[trigger] queue.contains_key(k)
        }
    }

    pub fn new(first_sequence: u64, max_depth: usize) -> (r: Self)
        ensures
            r.wf(),
            r.next() == first_sequence,
            r.depth() == if max_depth < 1 { 1 } else { max_depth },
            r.waiting() == Map::<u64, MediaDatagram>::empty(),
            r.dropped_count() == 0,
    {
        JitterBuffer {
            next_sequence: first_sequence,
            max_depth: if max_depth < 1 { 1 } else { max_depth },
            queued: BTreeMap::new(),
            dropped: 0,
        }
    }

    /// Takes a packet and returns those now ready, in sequence order. A
    /// packet older than the next one to deliver is dropped and counted.
    pub fn push(&mut self, packet: MediaDatagram) -> (r: Vec<MediaDatagram>)
        requires
            old(self).wf(),
            old(self).push_fits(packet),
        ensures
            final(self).wf(),
            final(self).depth() == old(self).depth(),
            packet.sequence < old(self).next() ==> {
                &&& r@ == Seq::<MediaDatagram>::empty()
                &&& final(self).next() == old(self).next()
                &&& final(self).waiting() == old(self).waiting()
                &&& final(self).dropped_count() == old(self).dropped_count() + 1
            },
            packet.sequence >= old(self).next() ==> {
                let queue = admitted(old(self).waiting(), packet);
                let start = resume_from(old(self).next(), old(self).depth(), queue);
                &&& is_run(queue, start, r@)
                &&& final(self).next() == start + r@.len()
                &&& final(self).waiting() == queue.remove_keys(key_range(start as int, start + r@.len()))
                &&& final(self).dropped_count() == old(self).dropped_count() + (start - old(self).next())
            },
    {
        if packet.sequence < self.next_sequence {
            self.dropped = self.dropped + 1;
            return Vec::new();
        }
        let ghost before = self.queued@;
        let sequence = packet.sequence;
        if !self.queued.contains_key(&sequence) {
            self.queued.insert(sequence, packet);
        }
        let ghost queue = self.queued@;
        assert(queue == admitted(before, packet));
        assert(queue.dom().finite());
        assert(forall|k: u64| #[trigger] queue.contains_key(k) ==> self.next_sequence <= k
            && queue[k].sequence == k);
        if self.queued.len() > self.max_depth {
            match first_key(&self.queued) {
                Some(first) => {
                    proof {
                        let c = least_key(queue);
                        assert(queue.contains_key(first) && forall|j: u64| #[trigger] queue.contains_key(j) ==> first <= j);
                        assert(queue.contains_key(c) && forall|j: u64| #[trigger] queue.contains_key(j) ==> c <= j);
                        assert(c <= first && first <= c);
                        assert(queue.contains_key(packet.sequence));
                        assert(first <= packet.sequence);
                        assert(first == resume_from(old(self).next(), old(self).depth(), queue));
                    }
                    self.dropped = self.dropped + (first - self.next_sequence);
                    self.next_sequence = first;
                },
                None => {},
            }
        }
        let start = self.next_sequence;
        assert(start == resume_from(old(self).next(), old(self).depth(), queue));
        let mut ready: Vec<MediaDatagram> = Vec::new();
        assert(queue.remove_keys(key_range(start as int, start as int)) =~= queue);
        let ghost gap: u64 = choose|k: u64| start <= k && !#[trigger] queue.contains_key(k);
        while self.queued.contains_key(&self.next_sequence)
            invariant
                self.max_depth == old(self).max_depth,
                self.max_depth >= 1,
                self.dropped == old(self).dropped + (start - old(self).next_sequence),
                queue.dom().finite(),
                self.next_sequence == start + ready@.len(),
                forall|k: u64| #[trigger] queue.contains_key(k) ==> start <= k && queue[k].sequence == k,
                start <= gap,
                !queue.contains_key(gap),
                self.next_sequence <= gap,
                forall|j: int| 0 <= j < ready@.len() ==> #[trigger] ready@[j] == queue[(start + j) as u64],
                forall|k: u64| start <= k < self.next_sequence ==> #[trigger] queue.contains_key(k),
                self.queued@ == queue.remove_keys(key_range(start as int, self.next_sequence as int)),
                self.queued@.len() + ready@.len() == queue.len(),
            decreases u64::MAX - self.next_sequence,
        {
            let key = self.next_sequence;
            assert(key != gap);
            let ghost current = self.queued@;
            let ghost ready_before = ready@;
            assert(current.contains_key(key));
            assert(current.dom().finite());
            assert(current[key] == queue[key]);
            match self.queued.remove(&key) {
                Some(item) => {
                    assert(item == queue[key]);
                    ready.push(item);
                },
                None => {
                    assert(false);
                },
            }
            assert(self.queued@ =~= current.remove(key));
            assert(queue.contains_key(key));
            self.next_sequence = key + 1;
            assert(self.queued@ =~= queue.remove_keys(key_range(start as int, self.next_sequence as int)));
            assert forall|j: int| 0 <= j < ready@.len() implies #[trigger] ready@[j] == queue[(start + j) as u64] by {
                if j < ready_before.len() {
                    assert(ready@[j] == ready_before[j]);
                } else {
                    assert((start + j) as u64 == key);
                }
            }
        }
        assert(!queue.contains_key(self.next_sequence)) by {
            if queue.contains_key(self.next_sequence) {
                assert(self.queued@.contains_key(self.next_sequence));
            }
        }
        proof {
            if queue.len() > old(self).max_depth {
                let c = least_key(queue);
                assert(start == c);
                assert(queue.contains_key(c));
                if ready@.len() == 0 {
                    assert(self.queued@.contains_key(c));
                }
            }
        }
        ready
    }

    /// How many packets were dropped or skipped so far.
    pub fn dropped(&self) -> (r: u64)
        ensures
            r == self.dropped_count(),
    {
        self.dropped
    }
}

/// A capture or playback device.
#[derive(Debug, Clone, PartialEq, Eq)]
pub struct MediaDevice {
    pub id: String,
    pub label: String,
    pub kind: MediaDeviceKind,
    pub is_default: bool,
}

#[derive(Debug, Clone, Copy, PartialEq, Eq, PartialOrd, Ord, Structural)]
pub enum MediaDeviceKind {
    AudioInput,
    AudioOutput,
    Camera,
    Screen,
    Window,
}

/// What the installed media backend offers.
#[derive(Debug, Clone, PartialEq, Eq)]
pub struct MediaCapabilities {
    pub devices: Vec<MediaDevice>,
    pub encoders: Vec<String>,
    pub decoders: Vec<String>,
    pub zero_copy_backends: Vec<String>,
    /// Capture element names the backend can offer per family.
    pub audio_sources: Vec<String>,
    pub camera_sources: Vec<String>,
    pub screen_sources: Vec<String>,
    /// "x11", "wayland", "windows", "macos" or "none" when headless.
    pub display_session: String,
}

/// What the local device can encode.
#[derive(Debug, Clone, Copy, PartialEq, Eq)]
pub struct VideoLimits {
    pub max_width: u16,
    pub max_height: u16,
    pub max_frames_per_second: u8,
    pub max_bitrate_kbps: u32,
}

/// Why a media operation failed.
#[derive(Debug, Clone, PartialEq, Eq)]
pub enum MediaError {
    Unavailable(String),
    Unsupported(String),
    Pipeline(String),
    Poisoned,
    NoCameraDevice,
    NoDisplaySession,
    NoScreenBackend(String),
    PortalDenied(String),
    PortalFailed(String),
    PortalUnavailable,
}

/// The stable code of an error, for errors that have one.
pub open spec fn error_code(e: MediaError) -> Option<Seq<char>> {
    match e {
        MediaError::NoCameraDevice => Some("no_camera_device"@),
        MediaError::NoDisplaySession => Some("no_display_session"@),
        MediaError::NoScreenBackend(_) => Some("no_screen_backend"@),
        MediaError::PortalDenied(_) => Some("portal_denied"@),
        MediaError::PortalFailed(_) => Some("portal_failed"@),
        MediaError::PortalUnavailable => Some("portal_unavailable"@),
        _ => None,
    }
}

impl MediaError {
    /// A stable, machine-readable code for the desktop. Generic backend and
    /// pipeline failures have none: only the caller, knowing the media
    /// kind, can classify them.
    pub fn code(&self) -> (r: Option<&'static str>)
        ensures
            match r {
                Some(s) => error_code(*self) == Some(s@),
                None => error_code(*self) is None,
            },
    {
        match self {
            MediaError::NoCameraDevice => Some("no_camera_device"),
            MediaError::NoDisplaySession => Some("no_display_session"),
            MediaError::NoScreenBackend(_) => Some("no_screen_backend"),
            MediaError::PortalDenied(_) => Some("portal_denied"),
            MediaError::PortalFailed(_) => Some("portal_failed"),
            MediaError::PortalUnavailable => Some("portal_unavailable"),
            _ => None,
        }
    }
}

/// The bits of `0.10_f32`.
pub const TEN_PERCENT_LOSS_BITS: u32 = 0x3dcc_cccd;

/// The bits of `0.03_f32`.
pub const THREE_PERCENT_LOSS_BITS: u32 = 0x3cf5_c28f;

/// Whether the single-precision value with these bits is at least the
/// positive value with bits `threshold`: it must have no sign bit and not
/// be NaN, and then the order of such values is that of their bits.
pub open spec fn loss_at_least(bits: u32, threshold: u32) -> bool {
    bits <= 0x7f80_0000 && bits >= threshold
}

/// The share of the bitrate kept under a packet loss, in percent.
pub open spec fn kept_percent(loss_bits: u32) -> u32 {
    if loss_at_least(loss_bits, TEN_PERCENT_LOSS_BITS) {
        45
    } else if loss_at_least(loss_bits, THREE_PERCENT_LOSS_BITS) {
        70
    } else {
        100
    }
}

/// Whether the local device can honour a profile exactly.
pub open spec fn within_limits(p: QualityProfile, limits: VideoLimits) -> bool {
    &&& p.width <= limits.max_width
    &&& p.height <= limits.max_height
    &&& p.frames_per_second <= limits.max_frames_per_second
    &&& p.bitrate_kbps <= limits.max_bitrate_kbps
}

pub open spec fn min_int(a: int, b: int) -> int {
    if a <= b { a } else { b }
}

/// The bitrate an automatic profile gets: the request capped by the
/// device, reduced by loss, and never below 64 kbps.
pub open spec fn adapted_bitrate(requested: u32, max_bitrate: u32, loss_bits: u32) -> int {
    let capped = min_int(requested as int, max_bitrate as int);
    let scaled = min_int(capped * kept_percent(loss_bits), u32::MAX as int) / 100;
    if scaled < 64 { 64 } else { scaled }
}

impl QualityProfile {
    /// A copy of the same profile.
    pub fn duplicate(&self) -> (r: Self)
        ensures
            r == *self,
    {
        QualityProfile {
            mode: self.mode,
            width: self.width,
            height: self.height,
            frames_per_second: self.frames_per_second,
            bitrate_kbps: self.bitrate_kbps,
            codec: match &self.codec {
                Some(c) => Some(c.clone()),
                None => None,
            },
        }
    }
}

/// Resolves an automatic profile against the device's limits and the
/// observed packet loss, given as the bits of an `f32` (`f32::to_bits`). A
/// manual profile is kept exactly as requested, or refused when the device
/// cannot honour it: it is never silently changed.
pub fn resolve_quality(requested: &QualityProfile, limits: VideoLimits, packet_loss_bits: u32) -> (r: Result<
    QualityProfile,
    MediaError,
>)
    ensures
        requested.mode == QualityMode::Manual && within_limits(*requested, limits) ==> r == Ok::<
            QualityProfile,
            MediaError,
        >(*requested),
        requested.mode == QualityMode::Manual && !within_limits(*requested, limits) ==> (r matches Err(
            MediaError::Unsupported(m),
        ) && m@ == "manual quality exceeds local capability"@),
        requested.mode != QualityMode::Manual ==> (r matches Ok(p) && p == (QualityProfile {
            mode: QualityMode::Automatic,
            width: min_int(requested.width as int, limits.max_width as int) as u16,
            height: min_int(requested.height as int, limits.max_height as int) as u16,
            frames_per_second: min_int(
                requested.frames_per_second as int,
                limits.max_frames_per_second as int,
            ) as u8,
            bitrate_kbps: adapted_bitrate(
                requested.bitrate_kbps,
                limits.max_bitrate_kbps,
                packet_loss_bits,
            ) as u32,
            codec: requested.codec,
        })),
{
    let supported = requested.width <= limits.max_width && requested.height <= limits.max_height
        && requested.frames_per_second <= limits.max_frames_per_second && requested.bitrate_kbps
        <= limits.max_bitrate_kbps;
    if let QualityMode::Manual = requested.mode {
        if supported {
            return Ok(requested.duplicate());
        } else {
            return Err(MediaError::Unsupported(String::from_str("manual quality exceeds local capability")));
        }
    }
    let loss_percent: u32 = if packet_loss_bits <= 0x7f80_0000 && packet_loss_bits >= TEN_PERCENT_LOSS_BITS {
        45
    } else if packet_loss_bits <= 0x7f80_0000 && packet_loss_bits >= THREE_PERCENT_LOSS_BITS {
        70
    } else {
        100
    };
    let requested_bitrate = if requested.bitrate_kbps < limits.max_bitrate_kbps {
        requested.bitrate_kbps
    } else {
        limits.max_bitrate_kbps
    };
    assert(requested_bitrate as u64 * loss_percent as u64 <= 100 * 0xffff_ffffu64) by (nonlinear_arith)
        requires
            loss_percent <= 100,
            requested_bitrate <= 0xffff_ffffu32,
    ;
    let product: u64 = requested_bitrate as u64 * loss_percent as u64;
    let saturated: u32 = if product > u32::MAX as u64 { u32::MAX } else { product as u32 };
    let scaled = saturated / 100;
    let bitrate_kbps = if scaled < 64 { 64 } else { scaled };
    Ok(QualityProfile {
        mode: QualityMode::Automatic,
        width: if requested.width < limits.max_width { requested.width } else { limits.max_width },
        height: if requested.height < limits.max_height { requested.height } else { limits.max_height },
        frames_per_second: if requested.frames_per_second < limits.max_frames_per_second {
            requested.frames_per_second
        } else {
            limits.max_frames_per_second
        },
        bitrate_kbps,
        codec: match &requested.codec {
            Some(c) => Some(c.clone()),
            None => None,
        },
    })
}

/// The graphical session a capture pipeline would attach to.
#[derive(Debug, Clone, Copy, PartialEq, Eq)]
pub enum DisplaySession {
    NoSession,
    X11,
    Wayland,
}

/// A Wayland session wins over X11: Wayland sessions usually export both,
/// but only the portal can capture the real desktop there.
pub fn detect_display_session(has_x11: bool, has_wayland: bool) -> (r: DisplaySession)
    ensures
        r == if has_wayland {
            DisplaySession::Wayland
        } else if has_x11 {
            DisplaySession::X11
        } else {
            DisplaySession::NoSession
        },
{
    if has_wayland {
        DisplaySession::Wayland
    } else if has_x11 {
        DisplaySession::X11
    } else {
        DisplaySession::NoSession
    }
}

/// The backend a screen capture goes through.
#[derive(Debug, Clone, Copy, PartialEq, Eq)]
pub enum ScreenCapturePlan {
    /// Capture from the X server directly.
    X11,
    /// A PipeWire stream negotiated through the desktop portal.
    PipeWirePortal,
    /// Direct3D 11 capture on Windows.
    Windows,
}

/// Which screen capture plugins the installed backend offers.
#[derive(Debug, Clone, Copy)]
pub struct ScreenCaptureAvailability {
    pub is_windows: bool,
    pub has_ximagesrc: bool,
    pub has_pipewiresrc: bool,
    pub has_d3d11_screencapture: bool,
    pub portal_ready: bool,
}

/// The routing table of screen capture: whether `r` is the plan for this
/// session and these plugins, or the error whose code tells the desktop
/// what is missing.
pub open spec fn capture_routed(
    session: DisplaySession,
    a: ScreenCaptureAvailability,
    r: Result<ScreenCapturePlan, MediaError>,
) -> bool {
    if a.is_windows {
        if a.has_d3d11_screencapture {
            r == Ok::<ScreenCapturePlan, MediaError>(ScreenCapturePlan::Windows)
        } else {
            r matches Err(MediaError::NoScreenBackend(m)) && m@ == "d3d11screencapturesrc is missing"@
        }
    } else {
        match session {
            DisplaySession::NoSession => r == Err::<ScreenCapturePlan, MediaError>(MediaError::NoDisplaySession),
            DisplaySession::X11 => if a.has_ximagesrc {
                r == Ok::<ScreenCapturePlan, MediaError>(ScreenCapturePlan::X11)
            } else if a.has_pipewiresrc && a.portal_ready {
                r == Ok::<ScreenCapturePlan, MediaError>(ScreenCapturePlan::PipeWirePortal)
            } else {
                r matches Err(MediaError::NoScreenBackend(m)) && m@ == "no X11 or PipeWire screen capture plugin"@
            },
            DisplaySession::Wayland => if !a.has_pipewiresrc {
                r matches Err(MediaError::NoScreenBackend(m)) && m@
                    == "pipewiresrc is missing for Wayland screen capture"@
            } else if a.portal_ready {
                r == Ok::<ScreenCapturePlan, MediaError>(ScreenCapturePlan::PipeWirePortal)
            } else {
                r == Err::<ScreenCapturePlan, MediaError>(MediaError::PortalUnavailable)
            },
        }
    }
}

/// Picks the screen capture backend for a session from what is available.
pub fn decide_screen_capture_source(session: DisplaySession, availability: ScreenCaptureAvailability) -> (r: Result<
    ScreenCapturePlan,
    MediaError,
>)
    ensures
        capture_routed(session, availability, r),
{
    if availability.is_windows {
        return if availability.has_d3d11_screencapture {
            Ok(ScreenCapturePlan::Windows)
        } else {
            Err(MediaError::NoScreenBackend(String::from_str("d3d11screencapturesrc is missing")))
        };
    }
    match session {
        DisplaySession::NoSession => Err(MediaError::NoDisplaySession),
        DisplaySession::X11 => {
            if availability.has_ximagesrc {
                Ok(ScreenCapturePlan::X11)
            } else if availability.has_pipewiresrc && availability.portal_ready {
                Ok(ScreenCapturePlan::PipeWirePortal)
            } else {
                Err(MediaError::NoScreenBackend(String::from_str("no X11 or PipeWire screen capture plugin")))
            }
        },
        DisplaySession::Wayland => {
            if !availability.has_pipewiresrc {
                Err(
                    MediaError::NoScreenBackend(
                        String::from_str("pipewiresrc is missing for Wayland screen capture"),
                    ),
                )
            } else if availability.portal_ready {
                Ok(ScreenCapturePlan::PipeWirePortal)
            } else {
                Err(MediaError::PortalUnavailable)
            }
        },
    }
}

/// A native window the desktop lends for video to render into.
#[derive(Debug, Clone, Copy, PartialEq, Eq, Hash, PartialOrd, Ord)]
pub enum VideoSurface {
    RemoteCamera,
    RemoteScreen,
    LocalPreview,
}

/// The surface received video of a kind renders into; audio has none.
pub fn surface_for(kind: MediaKind) -> (r: Option<VideoSurface>)
    ensures
        r == match kind {
            MediaKind::Camera => Some(VideoSurface::RemoteCamera),
            MediaKind::Screen => Some(VideoSurface::RemoteScreen),
            _ => None::<VideoSurface>,
        },
{
    match kind {
        MediaKind::Camera => Some(VideoSurface::RemoteCamera),
        MediaKind::Screen => Some(VideoSurface::RemoteScreen),
        MediaKind::Voice | MediaKind::SystemAudio => None,
    }
}

/// The name a device kind is reported under.
pub fn kind_name(kind: MediaDeviceKind) -> (r: &'static str)
    ensures
        r@ == kind_text(kind),
{
    match kind {
        MediaDeviceKind::AudioInput => "audio_input",
        MediaDeviceKind::AudioOutput => "audio_output",
        MediaDeviceKind::Camera => "camera",
        MediaDeviceKind::Screen => "screen",
        MediaDeviceKind::Window => "window",
    }
}

/// The name of each device kind, as `kind_name` reports it.
pub open spec fn kind_text(kind: MediaDeviceKind) -> Seq<char> {
    match kind {
        MediaDeviceKind::AudioInput => "audio_input"@,
        MediaDeviceKind::AudioOutput => "audio_output"@,
        MediaDeviceKind::Camera => "camera"@,
        MediaDeviceKind::Screen => "screen"@,
        MediaDeviceKind::Window => "window"@,
    }
}

/// The device kind a selection names: only inputs, outputs and cameras
/// are selected by device.
pub open spec fn selectable(text: Seq<char>) -> Option<MediaDeviceKind> {
    if text == "audio_input"@ {
        Some(MediaDeviceKind::AudioInput)
    } else if text == "audio_output"@ {
        Some(MediaDeviceKind::AudioOutput)
    } else if text == "camera"@ {
        Some(MediaDeviceKind::Camera)
    } else {
        None
    }
}

/// The device kind a selection names, if it is one selected by device.
pub fn selectable_kind(text: &str) -> (r: Option<MediaDeviceKind>)
    ensures
        r == selectable(text@),
{
    if same_text(text, "audio_input") {
        Some(MediaDeviceKind::AudioInput)
    } else if same_text(text, "audio_output") {
        Some(MediaDeviceKind::AudioOutput)
    } else if same_text(text, "camera") {
        Some(MediaDeviceKind::Camera)
    } else {
        None
    }
}

/// The device class a selected device of a kind is looked up under; screens
/// and windows are not devices.
pub fn device_filter(kind: MediaDeviceKind) -> (r: Option<&'static str>)
    ensures
        r matches Some(c) ==> c@ == match kind {
            MediaDeviceKind::AudioInput => "Audio/Source"@,
            MediaDeviceKind::AudioOutput => "Audio/Sink"@,
            _ => "Video/Source"@,
        },
        r is None <==> (kind == MediaDeviceKind::Screen || kind == MediaDeviceKind::Window),
{
    match kind {
        MediaDeviceKind::AudioInput => Some("Audio/Source"),
        MediaDeviceKind::AudioOutput => Some("Audio/Sink"),
        MediaDeviceKind::Camera => Some("Video/Source"),
        MediaDeviceKind::Screen | MediaDeviceKind::Window => None,
    }
}

/// A selectable kind is selected by the name it is reported under, and
/// screens and windows by none.
pub proof fn law_selection_reads_reported_names(kind: MediaDeviceKind)
    ensures
        (kind != MediaDeviceKind::Screen && kind != MediaDeviceKind::Window) ==> selectable(kind_text(kind)) == Some(kind),
        (kind == MediaDeviceKind::Screen || kind == MediaDeviceKind::Window) ==> selectable(kind_text(kind)) is None,
{
    reveal_strlit("audio_input");
    reveal_strlit("audio_output");
    reveal_strlit("camera");
    reveal_strlit("screen");
    reveal_strlit("window");
    assert("audio_input"@.len() == 11 && "audio_output"@.len() == 12 && "camera"@.len() == 6);
    assert("audio_input"@ != "audio_output"@);
    assert("audio_input"@ != "camera"@);
    assert("audio_output"@ != "camera"@);
    assert("screen"@.len() == 6 && "window"@.len() == 6);
    assert("screen"@[0] == 's' && "window"@[0] == 'w' && "camera"@[0] == 'c');
    assert("screen"@ != "audio_input"@ && "screen"@ != "audio_output"@ && "screen"@ != "camera"@);
    assert("window"@ != "audio_input"@ && "window"@ != "audio_output"@ && "window"@ != "camera"@);
}

/// The profile a call of a kind starts with.
pub open spec fn default_profile(kind: MediaKind) -> (QualityMode, u16, u16, u8, u32, Seq<char>) {
    match kind {
        MediaKind::Camera => (QualityMode::Automatic, 1280, 720, 30, 2500, "h264"@),
        MediaKind::Screen => (QualityMode::Automatic, 1920, 1080, 30, 5000, "h264"@),
        _ => (QualityMode::Automatic, 1, 1, 1, 64, "opus"@),
    }
}

/// The automatic profile a call of a kind starts with: Opus at 64 kbps for
/// audio, H.264 at 720p and 2.5 Mbps for the camera, 1080p and 5 Mbps for
/// the screen.
pub fn default_media_profile(kind: MediaKind) -> (r: QualityProfile)
    ensures
        r.codec is Some,
        (r.mode, r.width, r.height, r.frames_per_second, r.bitrate_kbps, r.codec.unwrap()@) == default_profile(
            kind,
        ),
{
    match kind {
        MediaKind::Voice | MediaKind::SystemAudio => QualityProfile {
            mode: QualityMode::Automatic,
            width: 1,
            height: 1,
            frames_per_second: 1,
            bitrate_kbps: 64,
            codec: Some(String::from_str("opus")),
        },
        MediaKind::Camera => QualityProfile {
            mode: QualityMode::Automatic,
            width: 1280,
            height: 720,
            frames_per_second: 30,
            bitrate_kbps: 2500,
            codec: Some(String::from_str("h264")),
        },
        MediaKind::Screen => QualityProfile {
            mode: QualityMode::Automatic,
            width: 1920,
            height: 1080,
            frames_per_second: 30,
            bitrate_kbps: 5000,
            codec: Some(String::from_str("h264")),
        },
    }
}

/// The element description of an H.264 encoder at a bitrate. `openh264enc`
/// takes bits per second, the others kilobits; `x264enc` is tuned for low
/// latency.
pub open spec fn encoder_text(encoder: Seq<char>, bitrate_kbps: u32) -> Seq<char> {
    if encoder == "openh264enc"@ {
        "openh264enc bitrate="@ + decimal(min_int(bitrate_kbps * 1000, u32::MAX as int) as nat)
    } else if encoder == "x264enc"@ {
        "x264enc bitrate="@ + decimal(bitrate_kbps as nat) + " tune=zerolatency speed-preset=veryfast"@
    } else {
        encoder + " bitrate="@ + decimal(bitrate_kbps as nat)
    }
}

/// The element description of an encoder at a bitrate.
pub fn encoder_description(encoder: &str, bitrate_kbps: u32) -> (r: String)
    ensures
        r@ == encoder_text(encoder@, bitrate_kbps),
{
    if same_text(encoder, "openh264enc") {
        let bits: u64 = bitrate_kbps as u64 * 1000;
        let saturated: u64 = if bits > u32::MAX as u64 { u32::MAX as u64 } else { bits };
        let mut out = String::from_str("openh264enc bitrate=");
        push_decimal(&mut out, saturated);
        out
    } else if same_text(encoder, "x264enc") {
        let mut out = String::from_str("x264enc bitrate=");
        push_decimal(&mut out, bitrate_kbps as u64);
        out.append(" tune=zerolatency speed-preset=veryfast");
        out
    } else {
        let mut out = String::from_str(encoder);
        out.append(" bitrate=");
        push_decimal(&mut out, bitrate_kbps as u64);
        out
    }
}

/// The receiving pipeline of a kind, ending in `sink_element`.
pub open spec fn receiver_text(kind: MediaKind, sink_element: Seq<char>) -> Seq<char> {
    match kind {
        MediaKind::Camera | MediaKind::Screen => "appsrc name=rtp_source is-live=true format=time do-timestamp=true caps=\"application/x-rtp,media=video,encoding-name=H264,payload=96,clock-rate=90000\" ! rtpjitterbuffer latency=80 drop-on-latency=true ! rtph264depay ! h264parse ! decodebin ! videoconvert ! "@
            + sink_element + " name=video_sink sync=false"@,
        _ => "appsrc name=rtp_source is-live=true format=time do-timestamp=true caps=\"application/x-rtp,media=audio,encoding-name=OPUS,payload=111,clock-rate=48000\" ! rtpjitterbuffer latency=60 drop-on-latency=true ! rtpopusdepay ! opusdec ! audioconvert ! audioresample ! volume name=participant_volume ! "@
            + sink_element + " sync=false"@,
    }
}

/// The receiving pipeline of a kind: RTP in, depayloaded and decoded, out
/// to `sink_element`.
pub fn receiver_description(kind: MediaKind, sink_element: &str) -> (r: String)
    ensures
        r@ == receiver_text(kind, sink_element@),
{
    match kind {
        MediaKind::Voice | MediaKind::SystemAudio => {
            let mut out = String::from_str(
                "appsrc name=rtp_source is-live=true format=time do-timestamp=true caps=\"application/x-rtp,media=audio,encoding-name=OPUS,payload=111,clock-rate=48000\" ! rtpjitterbuffer latency=60 drop-on-latency=true ! rtpopusdepay ! opusdec ! audioconvert ! audioresample ! volume name=participant_volume ! ",
            );
            out.append(sink_element);
            out.append(" sync=false");
            out
        },
        MediaKind::Camera | MediaKind::Screen => {
            let mut out = String::from_str(
                "appsrc name=rtp_source is-live=true format=time do-timestamp=true caps=\"application/x-rtp,media=video,encoding-name=H264,payload=96,clock-rate=90000\" ! rtpjitterbuffer latency=80 drop-on-latency=true ! rtph264depay ! h264parse ! decodebin ! videoconvert ! ",
            );
            out.append(sink_element);
            out.append(" name=video_sink sync=false");
            out
        },
    }
}

/// The encoding part of a capture pipeline for a profile, with the encoder
/// element `encoder`.
pub open spec fn encode_text(profile: QualityProfile, encoder: Seq<char>) -> Seq<char> {
    "videoconvert ! videoscale ! videorate ! video/x-raw,width="@ + decimal(profile.width as nat) + ",height="@
        + decimal(profile.height as nat) + ",framerate="@ + decimal(profile.frames_per_second as nat)
        + "/1 ! "@ + encoder
        + " ! h264parse ! rtph264pay config-interval=-1 pt=96 mtu=1100 ! appsink name=rtp_sink sync=false max-buffers=3 drop=true"@
}

/// The encoding part of a capture pipeline: scaled to the profile, encoded
/// by `encoder`, packetized as RTP into the application sink.
pub fn encode_description(profile: &QualityProfile, encoder: &str) -> (r: String)
    ensures
        r@ == encode_text(*profile, encoder@),
{
    let mut out = String::from_str("videoconvert ! videoscale ! videorate ! video/x-raw,width=");
    push_decimal(&mut out, profile.width as u64);
    out.append(",height=");
    push_decimal(&mut out, profile.height as u64);
    out.append(",framerate=");
    push_decimal(&mut out, profile.frames_per_second as u64);
    out.append("/1 ! ");
    out.append(encoder);
    out.append(
        " ! h264parse ! rtph264pay config-interval=-1 pt=96 mtu=1100 ! appsink name=rtp_sink sync=false max-buffers=3 drop=true",
    );
    out
}

/// A capture pipeline that also feeds a local preview into `preview_sink`.
pub open spec fn preview_text(encode: Seq<char>, preview_sink: Seq<char>) -> Seq<char> {
    "tee name=capture_tee ! queue ! "@ + encode
        + " capture_tee. ! queue leaky=downstream max-size-buffers=2 ! videoscale ! video/x-raw,width=480 ! videoconvert ! "@
        + preview_sink + " name=preview_sink sync=false qos=false"@
}

/// Splits the captured video between the encoding part and a small local
/// preview.
pub fn preview_description(encode: &str, preview_sink: &str) -> (r: String)
    ensures
        r@ == preview_text(encode@, preview_sink@),
{
    let mut out = String::from_str("tee name=capture_tee ! queue ! ");
    out.append(encode);
    out.append(
        " capture_tee. ! queue leaky=downstream max-size-buffers=2 ! videoscale ! video/x-raw,width=480 ! videoconvert ! ",
    );
    out.append(preview_sink);
    out.append(" name=preview_sink sync=false qos=false");
    out
}

/// The kind of device a device class names: audio sources are inputs,
/// audio sinks outputs, video sources cameras; other classes are not
/// listed.
pub open spec fn class_kind(class: Seq<char>) -> Option<MediaDeviceKind> {
    if occurs_in(class, "Audio/Source"@) {
        Some(MediaDeviceKind::AudioInput)
    } else if occurs_in(class, "Audio/Sink"@) {
        Some(MediaDeviceKind::AudioOutput)
    } else if occurs_in(class, "Video/Source"@) {
        Some(MediaDeviceKind::Camera)
    } else {
        None
    }
}

/// The kind of device a device class names, if it is listed.
pub fn device_kind_of_class(class: &str) -> (r: Option<MediaDeviceKind>)
    ensures
        r == class_kind(class@),
{
    if text_contains(class, "Audio/Source") {
        Some(MediaDeviceKind::AudioInput)
    } else if text_contains(class, "Audio/Sink") {
        Some(MediaDeviceKind::AudioOutput)
    } else if text_contains(class, "Video/Source") {
        Some(MediaDeviceKind::Camera)
    } else {
        None
    }
}

/// The stable identifier of a device: the hexadecimal digest of its class
/// and its name, joined by a colon.
pub open spec fn device_id_text(class: Seq<char>, name: Seq<char>) -> Seq<char> {
    hex_lower(blake3_digest(encode_utf8(class + seq![':'] + name)))
}

/// The stable identifier of a device.
pub fn media_device_id(class: &str, name: &str) -> (r: String)
    ensures
        r@ == device_id_text(class@, name@),
{
    let mut text = String::from_str(class);
    text.append(":");
    text.append(name);
    proof {
        reveal_strlit(":");
    }
    assert(text@ =~= class@ + seq![':'] + name@);
    let digest = blake3_hash(text.as_str().as_bytes());
    hex_encode(digest.as_slice())
}

/// The positions, among the first `n` devices found, of those of a listed
/// kind, in order.
pub open spec fn listed_positions(found: Seq<(String, String)>, n: int) -> Seq<int>
    decreases n,
{
    if n <= 0 {
        Seq::empty()
    } else if class_kind(found[n - 1].0@) is Some {
        listed_positions(found, n - 1).push(n - 1)
    } else {
        listed_positions(found, n - 1)
    }
}

/// Whether a listed device stands for the device found at `x`.
pub open spec fn lists_found(found: Seq<(String, String)>, x: int, d: MediaDevice) -> bool {
    &&& Some(d.kind) == class_kind(found[x].0@)
    &&& d.label@ == found[x].1@
    &&& d.id@ == device_id_text(found[x].0@, found[x].1@)
}

/// Whether device `k` is the first of its kind.
pub open spec fn first_of_kind(ds: Seq<MediaDevice>, k: int) -> bool {
    forall|j: int| 0 <= j < k ==> (#[trigger] ds[j]).kind != ds[k].kind
}

/// The devices found, each as `(class, name)`, as the capabilities list
/// them: those of a listed kind, in order, each with its kind, its name as
/// label and its identifier; the first of each kind is the default.
pub fn listed_devices(found: &[(String, String)]) -> (r: Vec<MediaDevice>)
    ensures
        r@.len() == listed_positions(found@, found@.len() as int).len(),
        forall|k: int|
            0 <= k < r@.len() ==> lists_found(found@, listed_positions(found@, found@.len() as int)[k], #[trigger] r@[k])
                && r@[k].is_default == first_of_kind(r@, k),
{
    let mut out: Vec<MediaDevice> = Vec::new();
    let mut i: usize = 0;
    while i < found.len()
        invariant
            i <= found@.len(),
            out@.len() == listed_positions(found@, i as int).len(),
            forall|k: int|
                0 <= k < out@.len() ==> lists_found(found@, listed_positions(found@, i as int)[k], #[trigger] out@[k])
                    && out@[k].is_default == first_of_kind(out@, k),
        decreases found@.len() - i,
    {
        let class = &found[i].0;
        let name = &found[i].1;
        match device_kind_of_class(class.as_str()) {
            Some(kind) => {
                let mut seen = false;
                let mut j: usize = 0;
                while j < out.len()
                    invariant
                        j <= out@.len(),
                        seen == exists|m: int| 0 <= m < j && (#[trigger] out@[m]).kind == kind,
                    decreases out@.len() - j,
                {
                    if out[j].kind == kind {
                        seen = true;
                    }
                    j = j + 1;
                }
                let ghost before = out@;
                let ghost positions = listed_positions(found@, i as int);
                let device = MediaDevice {
                    id: media_device_id(class.as_str(), name.as_str()),
                    label: name.clone(),
                    kind,
                    is_default: !seen,
                };
                out.push(device);
                proof {
                    assert(listed_positions(found@, i + 1) == positions.push(i as int));
                    assert(lists_found(found@, i as int, device));
                    assert forall|k: int| 0 <= k < out@.len() implies lists_found(
                        found@,
                        listed_positions(found@, i + 1)[k],
                        #[trigger] out@[k],
                    ) && out@[k].is_default == first_of_kind(out@, k) by {
                        if k < before.len() {
                            assert(out@[k] == before[k]);
                            assert(lists_found(found@, positions[k], before[k]));
                            assert(first_of_kind(before, k) == first_of_kind(out@, k)) by {
                                assert forall|j: int| 0 <= j < k implies out@[j] == before[j] by {}
                            }
                        } else {
                            assert(first_of_kind(out@, k) == !seen) by {
                                if seen {
                                    let m = choose|m: int| 0 <= m < before.len() && (#[trigger] before[m]).kind == kind;
                                    assert(out@[m] == before[m]);
                                }
                                assert forall|j: int| 0 <= j < k implies out@[j] == before[j] by {}
                            }
                        }
                    }
                }
            },
            None => {
                assert(listed_positions(found@, i + 1) == listed_positions(found@, i as int));
            },
        }
        i = i + 1;
    }
    out
}

/// How the capabilities name the display session: the platform on
/// Windows and macOS, else the session found.
pub open spec fn session_name(is_windows: bool, is_macos: bool, session: DisplaySession) -> Seq<char> {
    if is_windows {
        "windows"@
    } else if is_macos {
        "macos"@
    } else {
        match session {
            DisplaySession::X11 => "x11"@,
            DisplaySession::Wayland => "wayland"@,
            DisplaySession::NoSession => "none"@,
        }
    }
}

/// How the capabilities name the display session.
pub fn display_session_name(is_windows: bool, is_macos: bool, session: DisplaySession) -> (r: &'static str)
    ensures
        r@ == session_name(is_windows, is_macos, session),
{
    if is_windows {
        "windows"
    } else if is_macos {
        "macos"
    } else {
        match session {
            DisplaySession::X11 => "x11",
            DisplaySession::Wayland => "wayland",
            DisplaySession::NoSession => "none",
        }
    }
}

} // verus!
