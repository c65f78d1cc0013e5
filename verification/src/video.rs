//! Video frames: their bytes, their pace and the order in which they are
//! decoded.

use vstd::prelude::*;
use vstd::string::*;

verus! {

/// A frame of a video, four bytes to a pixel.
pub struct DecodedFrame {
    pub width: u32,
    pub height: u32,
    pub rgba: Vec<u8>,
}

/// How frames are resampled to the size at which they are shown.
#[derive(Clone, Copy, Debug, PartialEq, Eq, Structural)]
pub enum ScaleFilter {
    /// For a frame that gets larger.
    Lanczos,
    /// For a frame that gets smaller.
    Area,
    /// For a frame that keeps its size.
    Bilinear,
}

/// The filter for frames of `src` pixels that are shown in `out` pixels: a side
/// that gets longer decides before one that gets shorter.
pub open spec fn filter_for(src: (u32, u32), out: (u32, u32)) -> ScaleFilter {
    if out.0 > src.0 || out.1 > src.1 {
        ScaleFilter::Lanczos
    } else if out != src {
        ScaleFilter::Area
    } else {
        ScaleFilter::Bilinear
    }
}

/// Chooses the filter for frames of `src` pixels that are shown in `out` pixels.
pub fn choose_filter(src: (u32, u32), out: (u32, u32)) -> (r: ScaleFilter)
    ensures
        r == filter_for(src, out),
{
    if out.0 > src.0 || out.1 > src.1 {
        ScaleFilter::Lanczos
    } else if out.0 < src.0 || out.1 < src.1 {
        ScaleFilter::Area
    } else {
        ScaleFilter::Bilinear
    }
}

/// The time from one frame to the next, as a fraction of a second: the inverse
/// of the average frame rate, or a thirtieth where the rate is not known.
pub fn frame_period(numerator: i32, denominator: i32) -> (r: (i32, i32))
    ensures
        r == if numerator > 0 && denominator > 0 {
            (denominator, numerator)
        } else {
            (1i32, 30i32)
        },
        r.0 > 0,
        r.1 > 0,
{
    if numerator > 0 && denominator > 0 {
        (denominator, numerator)
    } else {
        (1, 30)
    }
}

/// A buffer of `len` bytes, with a row every `stride` bytes, holds a picture, and
/// the picture without its gaps can be held in memory.
pub open spec fn holds_rows(len: nat, stride: nat, width: nat, height: nat) -> bool {
    &&& width * 4 <= usize::MAX
    &&& height * (width * 4) <= isize::MAX
    &&& height > 0 ==> (height - 1) * stride + width * 4 <= len
}

/// The rows of a picture without the gaps between them.
pub open spec fn packed(src: Seq<u8>, stride: nat, width: nat, rows: nat) -> Seq<u8>
    decreases rows,
{
    if rows == 0 {
        seq![]
    } else {
        let start = (rows - 1) * stride;
        packed(src, stride, width, (rows - 1) as nat) + src.subrange(start, start + width * 4)
    }
}

/// Whether a buffer holds a picture whose rows start every `stride` bytes.
pub fn rows_in_buffer(len: usize, stride: usize, width: u32, height: u32) -> (r: bool)
    ensures
        r == holds_rows(len as nat, stride as nat, width as nat, height as nat),
{
    let row: u128 = width as u128 * 4;
    proof {
        assert(height * row <= 0xffff_ffff * (0xffff_ffff * 4)) by (nonlinear_arith)
            requires
                0 <= height <= 0xffff_ffff,
                0 <= row <= 0xffff_ffff * 4,
        ;
        assert(height * stride <= 0xffff_ffff * 0xffff_ffff_ffff_ffff) by (nonlinear_arith)
            requires
                0 <= height <= 0xffff_ffff,
                0 <= stride <= 0xffff_ffff_ffff_ffff,
        ;
        if height > 0 {
            assert((height - 1) * stride <= height * stride && (height - 1) * stride >= 0)
                by (nonlinear_arith)
                requires
                    height > 0,
                    stride >= 0,
            ;
        }
    }
    if row > usize::MAX as u128 || height as u128 * row > isize::MAX as u128 {
        return false;
    }
    height == 0 || (height as u128 - 1) * stride as u128 + row <= len as u128
}

/// Puts the rows of a picture one behind the other.
pub fn pack_rows(src: &[u8], stride: usize, width: u32, height: u32) -> (r: Vec<u8>)
    requires
        holds_rows(src@.len(), stride as nat, width as nat, height as nat),
    ensures
        r@ == packed(src@, stride as nat, width as nat, height as nat),
{
    let row_bytes: usize = width as usize * 4;
    let len: usize = src.len();
    let mut out: Vec<u8> = Vec::new();
    let mut row: u32 = 0;
    while row < height
        invariant
            row <= height,
            len == src@.len(),
            row_bytes == width * 4,
            holds_rows(src@.len(), stride as nat, width as nat, height as nat),
            out@ == packed(src@, stride as nat, width as nat, row as nat),
        decreases height - row,
    {
        proof {
            assert(row * stride <= (height - 1) * stride && row * stride >= 0) by (nonlinear_arith)
                requires
                    0 <= row <= height - 1,
                    stride >= 0,
            ;
        }
        let start: usize = row as usize * stride;
        let ghost before = out@;
        let mut i: usize = 0;
        while i < row_bytes
            invariant
                i <= row_bytes,
                len == src@.len(),
                start + row_bytes <= len,
                out@ == before + src@.subrange(start as int, start + i),
            decreases row_bytes - i,
        {
            out.push(src[start + i]);
            i = i + 1;
            assert(out@ =~= before + src@.subrange(start as int, start + i));
        }
        row = row + 1;
    }
    out
}

/// A packed picture has four bytes to a pixel, and each of them comes from its
/// place in its row.
pub proof fn law_packed_rows(src: Seq<u8>, stride: nat, width: nat, rows: nat, row: nat, col: nat)
    requires
        holds_rows(src.len(), stride, width, rows),
        row < rows,
        col < width * 4,
    ensures
        packed(src, stride, width, rows).len() == rows * (width * 4),
        0 <= row * (width * 4) + col < rows * (width * 4),
        packed(src, stride, width, rows)[(row * (width * 4) + col) as int] == src[(row * stride
            + col) as int],
    decreases rows,
{
    let wide = width * 4;
    lemma_packed_len(src, stride, width, rows);
    assert(0 <= row * wide + col < rows * wide) by (nonlinear_arith)
        requires
            row + 1 <= rows,
            col < wide,
    ;
    let last = (rows - 1) as nat;
    assert(last * wide <= rows * wide && 0 <= last * stride) by (nonlinear_arith)
        requires
            last + 1 == rows,
            wide >= 0,
            stride >= 0,
    ;
    if last > 0 {
        assert((last - 1) * stride <= last * stride) by (nonlinear_arith)
            requires
                stride >= 0,
        ;
    }
    lemma_packed_len(src, stride, width, last);
    if row < last {
        law_packed_rows(src, stride, width, last, row, col);
    }
}

proof fn lemma_packed_len(src: Seq<u8>, stride: nat, width: nat, rows: nat)
    requires
        holds_rows(src.len(), stride, width, rows),
    ensures
        packed(src, stride, width, rows).len() == rows * (width * 4),
    decreases rows,
{
    if rows > 0 {
        let last = (rows - 1) as nat;
        let wide = width * 4;
        assert(last * wide <= rows * wide && last * wide + wide == rows * wide && 0 <= last * stride)
            by (nonlinear_arith)
            requires
                last + 1 == rows,
                wide >= 0,
                stride >= 0,
        ;
        if last > 0 {
            assert((last - 1) * stride <= last * stride) by (nonlinear_arith)
                requires
                    stride >= 0,
            ;
        }
        lemma_packed_len(src, stride, width, last);
    } else {
        assert(0 * (width * 4) == 0);
    }
}

/// How long to wait before a frame is due. Times count nanoseconds from a moment
/// before the first frame.
pub fn wait_before(next_deadline: u128, now: u128) -> (r: Option<u128>)
    ensures
        r == if next_deadline > now {
            Some((next_deadline - now) as u128)
        } else {
            None
        },
{
    if next_deadline > now {
        Some(next_deadline - now)
    } else {
        None
    }
}

/// When the frame after is due: one period later, or now where that has passed,
/// so that a late decoder does not hurry to catch up.
pub fn advance_deadline(next_deadline: u128, period: u128, now: u128) -> (r: u128)
    requires
        next_deadline + period <= u128::MAX,
    ensures
        r == if next_deadline + period < now {
            now as int
        } else {
            next_deadline + period
        },
        r >= now,
        r >= next_deadline + period,
{
    let due = next_deadline + period;
    if due < now {
        now
    } else {
        due
    }
}

/// What a decoder can fail at.
#[derive(Clone, Copy, Debug, PartialEq, Eq, Structural)]
pub enum DecodeStage {
    /// To open its input.
    OpenInput,
    /// To find a video in it.
    FindStream,
    /// To set a codec up.
    CodecContext,
    /// To open the decoder of the codec.
    VideoDecoder,
    /// To set the scaler up.
    ScalerInit,
    /// To scale a frame.
    Scale,
    /// To give a packet to the codec.
    SendPacket,
    /// To tell the codec that there are no more packets.
    SendEnd,
}

/// What is said when a stage fails, before the cause.
pub open spec fn stage_text(stage: DecodeStage) -> Seq<char> {
    match stage {
        DecodeStage::OpenInput => "open input: "@,
        DecodeStage::FindStream => "no video stream found"@,
        DecodeStage::CodecContext => "codec ctx: "@,
        DecodeStage::VideoDecoder => "video decoder: "@,
        DecodeStage::ScalerInit => "scaler init: "@,
        DecodeStage::Scale => "scale: "@,
        DecodeStage::SendPacket => "send packet: "@,
        DecodeStage::SendEnd => "send eof: "@,
    }
}

/// What is said when a stage fails. That there is no video needs no cause.
pub open spec fn failure_text(stage: DecodeStage, cause: Seq<char>) -> Seq<char> {
    if stage is FindStream {
        stage_text(stage)
    } else {
        stage_text(stage) + cause
    }
}

/// Says why a decoder has failed.
pub fn decode_failure(stage: DecodeStage, cause: &str) -> (r: String)
    ensures
        r@ == failure_text(stage, cause@),
{
    let mut text = String::new();
    let start: &'static str = match stage {
        DecodeStage::OpenInput => "open input: ",
        DecodeStage::FindStream => "no video stream found",
        DecodeStage::CodecContext => "codec ctx: ",
        DecodeStage::VideoDecoder => "video decoder: ",
        DecodeStage::ScalerInit => "scaler init: ",
        DecodeStage::Scale => "scale: ",
        DecodeStage::SendPacket => "send packet: ",
        DecodeStage::SendEnd => "send eof: ",
    };
    text.append(start);
    match stage {
        DecodeStage::FindStream => {},
        _ => {
            text.append(cause);
        },
    }
    assert(text@ =~= failure_text(stage, cause@));
    text
}

/// What the decoder does next.
#[derive(Clone, Copy, Debug, PartialEq, Eq, Structural)]
pub enum DecodeStep {
    /// It asks whether it is to stop, before it opens the input.
    ReadStop,
    /// It opens the input from the start.
    Open,
    /// It reads a packet.
    ReadPacket,
    /// It gives the packet to the codec.
    SendPacket,
    /// It tells the codec that there are no more packets.
    SendEnd,
    /// It takes a frame from the codec; `ended` after the last packet.
    ReceiveFrame { ended: bool },
    /// It scales a frame and hands it on when it is due.
    ShowFrame { ended: bool },
    /// It is done.
    Finished,
    /// It has failed at a stage.
    Failed(DecodeStage),
}

/// What came of a step of the decoder.
#[derive(Clone, Copy, Debug, PartialEq, Eq, Structural)]
pub enum DecodeEvent {
    /// Whether it is to stop.
    StopRead { stop: bool },
    /// The step succeeded.
    Succeeded,
    /// The step failed at a stage.
    Failed(DecodeStage),
    /// A packet was read.
    Packet { stop: bool, of_video: bool },
    /// There are no more packets.
    EndOfInput,
    /// The codec had a frame.
    Frame { stop: bool },
    /// The codec has no frame at the moment.
    NoFrame,
    /// Nobody takes frames any more.
    ReceiverGone,
}

/// A step can fail at a stage.
pub open spec fn can_fail_at(step: DecodeStep, stage: DecodeStage) -> bool {
    match stage {
        DecodeStage::OpenInput
        | DecodeStage::FindStream
        | DecodeStage::CodecContext
        | DecodeStage::VideoDecoder
        | DecodeStage::ScalerInit => step is Open,
        DecodeStage::Scale => step is ShowFrame,
        DecodeStage::SendPacket => step is SendPacket,
        DecodeStage::SendEnd => step is SendEnd,
    }
}

/// An event can come of a step.
pub open spec fn answers(step: DecodeStep, event: DecodeEvent) -> bool {
    match event {
        DecodeEvent::StopRead { .. } => step is ReadStop,
        DecodeEvent::Succeeded => step is Open || step is SendPacket || step is SendEnd
            || step is ShowFrame,
        DecodeEvent::Failed(stage) => can_fail_at(step, stage),
        DecodeEvent::Packet { .. } | DecodeEvent::EndOfInput => step is ReadPacket,
        DecodeEvent::Frame { .. } | DecodeEvent::NoFrame => step is ReceiveFrame,
        DecodeEvent::ReceiverGone => step is ShowFrame,
    }
}

/// The step after another one.
pub open spec fn step_after(step: DecodeStep, event: DecodeEvent) -> DecodeStep {
    if let DecodeEvent::Failed(stage) = event {
        DecodeStep::Failed(stage)
    } else {
        match step {
            DecodeStep::ReadStop => if event->StopRead_stop {
                DecodeStep::Finished
            } else {
                DecodeStep::Open
            },
            DecodeStep::Open => DecodeStep::ReadPacket,
            DecodeStep::ReadPacket => match event {
                DecodeEvent::Packet { stop, of_video } => if stop {
                    DecodeStep::Finished
                } else if of_video {
                    DecodeStep::SendPacket
                } else {
                    DecodeStep::ReadPacket
                },
                _ => DecodeStep::SendEnd,
            },
            DecodeStep::SendPacket => DecodeStep::ReceiveFrame { ended: false },
            DecodeStep::SendEnd => DecodeStep::ReceiveFrame { ended: true },
            DecodeStep::ReceiveFrame { ended } => match event {
                DecodeEvent::Frame { stop } => if !stop {
                    DecodeStep::ShowFrame { ended }
                } else if ended {
                    DecodeStep::ReadStop
                } else {
                    DecodeStep::Finished
                },
                _ => if ended {
                    DecodeStep::ReadStop
                } else {
                    DecodeStep::ReadPacket
                },
            },
            DecodeStep::ShowFrame { ended } => if event is Succeeded {
                DecodeStep::ReceiveFrame { ended }
            } else if ended {
                DecodeStep::ReadStop
            } else {
                DecodeStep::Finished
            },
            DecodeStep::Finished => DecodeStep::Finished,
            DecodeStep::Failed(stage) => DecodeStep::Failed(stage),
        }
    }
}

/// Decides what the decoder does next. It plays its input over and over: after
/// the last frame it starts again, unless it is to stop.
pub fn next_decode_step(step: DecodeStep, event: DecodeEvent) -> (r: DecodeStep)
    requires
        answers(step, event),
    ensures
        r == step_after(step, event),
{
    match (step, event) {
        (_, DecodeEvent::Failed(stage)) => DecodeStep::Failed(stage),
        (DecodeStep::ReadStop, DecodeEvent::StopRead { stop }) => if stop {
            DecodeStep::Finished
        } else {
            DecodeStep::Open
        },
        (DecodeStep::Open, _) => DecodeStep::ReadPacket,
        (DecodeStep::ReadPacket, DecodeEvent::Packet { stop, of_video }) => if stop {
            DecodeStep::Finished
        } else if of_video {
            DecodeStep::SendPacket
        } else {
            DecodeStep::ReadPacket
        },
        (DecodeStep::ReadPacket, _) => DecodeStep::SendEnd,
        (DecodeStep::SendPacket, _) => DecodeStep::ReceiveFrame { ended: false },
        (DecodeStep::SendEnd, _) => DecodeStep::ReceiveFrame { ended: true },
        (DecodeStep::ReceiveFrame { ended }, DecodeEvent::Frame { stop }) => if !stop {
            DecodeStep::ShowFrame { ended }
        } else if ended {
            DecodeStep::ReadStop
        } else {
            DecodeStep::Finished
        },
        (DecodeStep::ReceiveFrame { ended }, _) => if ended {
            DecodeStep::ReadStop
        } else {
            DecodeStep::ReadPacket
        },
        (DecodeStep::ShowFrame { ended }, DecodeEvent::Succeeded) => DecodeStep::ReceiveFrame {
            ended,
        },
        (DecodeStep::ShowFrame { ended }, _) => if ended {
            DecodeStep::ReadStop
        } else {
            DecodeStep::Finished
        },
        (s, _) => s,
    }
}

/// The step that takes frames from the codec.
pub open spec fn draining(ended: bool) -> DecodeStep {
    DecodeStep::ReceiveFrame { ended }
}

/// The answer to whether the decoder is to stop.
pub open spec fn stop_read(stop: bool) -> DecodeEvent {
    DecodeEvent::StopRead { stop }
}

/// An event reports that the decoder is to stop.
pub open spec fn reports_stop(event: DecodeEvent) -> bool {
    ||| event == DecodeEvent::StopRead { stop: true }
    ||| event matches DecodeEvent::Packet { stop: true, .. }
    ||| event == DecodeEvent::Frame { stop: true }
}

/// A decoder that is told to stop does nothing more, or only asks once more
/// whether it is to stop before it would open its input again.
pub proof fn law_stop_ends_decoding(step: DecodeStep, event: DecodeEvent)
    requires
        answers(step, event),
        reports_stop(event),
    ensures
        ({
            let next = step_after(step, event);
            ||| next is Finished
            ||| next is ReadStop && step_after(next, stop_read(true)) is Finished
        }),
{
}

/// A frame is shown only when the codec gave one and nobody asked to stop.
pub proof fn law_frames_shown_until_stopped(step: DecodeStep, event: DecodeEvent)
    requires
        answers(step, event),
        step_after(step, event) is ShowFrame,
    ensures
        step is ReceiveFrame,
        event == (DecodeEvent::Frame { stop: false }),
{
}

/// The step after `n` frames were taken from the codec and shown.
pub open spec fn after_frames(ended: bool, n: nat) -> DecodeStep
    decreases n,
{
    if n == 0 {
        draining(ended)
    } else {
        let taken = step_after(
            after_frames(ended, (n - 1) as nat),
            (DecodeEvent::Frame { stop: false }),
        );
        step_after(taken, DecodeEvent::Succeeded)
    }
}

/// At the end of its input a decoder gives out the frames that are left, however
/// many there are, and then opens the input again.
pub proof fn law_decoding_starts_over(n: nat)
    ensures
        step_after(DecodeStep::ReadPacket, DecodeEvent::EndOfInput) == DecodeStep::SendEnd,
        step_after(DecodeStep::SendEnd, DecodeEvent::Succeeded) == after_frames(true, 0),
        step_after(after_frames(true, n), DecodeEvent::NoFrame) == DecodeStep::ReadStop,
        step_after(DecodeStep::ReadStop, stop_read(false)) == DecodeStep::Open,
{
    lemma_frames_go_on(true, n);
}

/// Showing frames leads back to taking the next one.
proof fn lemma_frames_go_on(ended: bool, n: nat)
    ensures
        after_frames(ended, n) == draining(ended),
    decreases n,
{
    if n > 0 {
        lemma_frames_go_on(ended, (n - 1) as nat);
    }
}

/// A decoder fails just when a step of it does, and at the same stage, and nothing
/// follows the end.
pub proof fn law_decoding_ends(step: DecodeStep, event: DecodeEvent)
    requires
        answers(step, event),
    ensures
        match (step_after(step, event), event) {
            (DecodeStep::Failed(at), DecodeEvent::Failed(stage)) => at == stage,
            (next, event) => !(next is Failed) && !(event is Failed),
        },
        step_after(step, event) is Finished ==> reports_stop(event) || event is ReceiverGone,
        !(step is Finished) && !(step is Failed),
{
}

/// A frame that gets longer on some side is resampled by Lanczos, one that keeps its
/// size by the bilinear filter, and one that only gets shorter by area.
pub proof fn law_filter_follows_the_change(src: (u32, u32), out: (u32, u32))
    ensures
        filter_for(src, out) is Lanczos <==> src.0 < out.0 || src.1 < out.1,
        filter_for(src, out) is Bilinear <==> src.0 == out.0 && src.1 == out.1,
        filter_for(src, out) is Area <==> src.0 >= out.0 && src.1 >= out.1 && (src.0 > out.0
            || src.1 > out.1),
{
}

/// A buffer holds a picture just when each of its rows ends inside the buffer, and
/// the rows together fit into memory.
pub proof fn law_buffer_holds_each_row(len: nat, stride: nat, width: u32, height: u32)
    ensures
        holds_rows(len, stride, width as nat, height as nat) <==> {
            &&& 4 * width <= usize::MAX
            &&& (height * width) * 4 <= isize::MAX
            &&& forall|row: nat| row < height ==> #[trigger] (row * stride) + 4 * width <= len
        },
{
    let wide = (width * 4) as nat;
    assert(height * wide == (height * width) * 4) by (nonlinear_arith)
        requires
            wide == width * 4,
    ;
    if height > 0 {
        let last = (height - 1) as nat;
        assert forall|row: nat| row < height implies #[trigger] (row * stride) <= last * stride by {
            assert(row * stride <= last * stride) by (nonlinear_arith)
                requires
                    row <= last,
            ;
        }
        if forall|row: nat| row < height ==> #[trigger] (row * stride) + 4 * width <= len {
            assert(last * stride + 4 * width <= len);
        }
    }
}

/// Packing nothing gives nothing, and each further row adds its own bytes.
pub proof fn law_packing_adds_rows(src: Seq<u8>, stride: nat, width: nat, rows: nat)
    requires
        holds_rows(src.len(), stride, width, rows + 1),
    ensures
        packed(src, stride, width, 0).len() == 0,
        packed(src, stride, width, rows + 1) == packed(src, stride, width, rows) + src.subrange(
            (rows * stride) as int,
            (rows * stride + 4 * width) as int,
        ),
{
}

/// What is said of a failure starts with the stage and ends with the cause; that there
/// is no video is said without one.
pub proof fn law_failures_name_stage_and_cause(stage: DecodeStage, cause: Seq<char>)
    ensures
        ({
            let text = failure_text(stage, cause);
            match stage {
                DecodeStage::OpenInput => text == "open input: "@ + cause,
                DecodeStage::FindStream => text == "no video stream found"@,
                DecodeStage::CodecContext => text == "codec ctx: "@ + cause,
                DecodeStage::VideoDecoder => text == "video decoder: "@ + cause,
                DecodeStage::ScalerInit => text == "scaler init: "@ + cause,
                DecodeStage::Scale => text == "scale: "@ + cause,
                DecodeStage::SendPacket => text == "send packet: "@ + cause,
                DecodeStage::SendEnd => text == "send eof: "@ + cause,
            }
        }),
{
}

/// A packet that was read ends the decoder where it is to stop, goes to the codec
/// where it is one of the video, and is passed over else.
pub proof fn law_packets_of_the_video_are_sent(stop: bool, of_video: bool)
    ensures
        ({
            let next = step_after(DecodeStep::ReadPacket, DecodeEvent::Packet { stop, of_video });
            &&& next is Finished <==> stop
            &&& next is SendPacket <==> !stop && of_video
            &&& next is ReadPacket <==> !stop && !of_video
        }),
        step_after(DecodeStep::ReadPacket, DecodeEvent::EndOfInput) is SendEnd,
{
}

/// The input is read once it is open, frames are taken after each packet and after
/// the last one, and the next frame is taken once one is shown.
pub proof fn law_frames_follow_packets(ended: bool)
    ensures
        step_after(DecodeStep::Open, DecodeEvent::Succeeded) is ReadPacket,
        step_after(DecodeStep::SendPacket, DecodeEvent::Succeeded) == draining(false),
        step_after(DecodeStep::SendEnd, DecodeEvent::Succeeded) == draining(true),
        step_after(DecodeStep::ShowFrame { ended }, DecodeEvent::Succeeded) == draining(ended),
        draining(ended) is ReceiveFrame && draining(ended)->ReceiveFrame_ended == ended,
{
}

/// A frame that the codec gives is shown unless the decoder is to stop. Without one the
/// next packet is read, or the input is opened again after the last.
pub proof fn law_taken_frames_are_shown(ended: bool, stop: bool)
    ensures
        ({
            let next = step_after(draining(ended), (DecodeEvent::Frame { stop }));
            &&& next is ShowFrame <==> !stop
            &&& next is ShowFrame ==> next->ShowFrame_ended == ended
            &&& next is Finished <==> stop && !ended
            &&& next is ReadStop <==> stop && ended
        }),
        step_after(draining(false), DecodeEvent::NoFrame) is ReadPacket,
        step_after(draining(true), DecodeEvent::NoFrame) is ReadStop,
{
}

/// A decoder without anybody to take its frames ends, or asks first whether it is to
/// stop once its input is read; and it opens its input unless it is to stop.
pub proof fn law_decoder_without_receiver_ends(ended: bool, stop: bool)
    ensures
        ({
            let next = step_after(DecodeStep::ShowFrame { ended }, DecodeEvent::ReceiverGone);
            &&& next is Finished <==> !ended
            &&& next is ReadStop <==> ended
        }),
        step_after(DecodeStep::ReadStop, DecodeEvent::StopRead { stop }) is Finished <==> stop,
        step_after(DecodeStep::ReadStop, DecodeEvent::StopRead { stop }) is Open <==> !stop,
{
}

/// A step and an event belong together just when the step can end that way.
pub proof fn law_events_answer_steps(step: DecodeStep, stop: bool, flag: bool)
    ensures
        answers(step, DecodeEvent::StopRead { stop }) <==> step is ReadStop,
        answers(step, DecodeEvent::Packet { stop, of_video: flag }) <==> step is ReadPacket,
        answers(step, DecodeEvent::EndOfInput) <==> step is ReadPacket,
        answers(step, DecodeEvent::Frame { stop }) <==> step is ReceiveFrame,
        answers(step, DecodeEvent::NoFrame) <==> step is ReceiveFrame,
        answers(step, DecodeEvent::ReceiverGone) <==> step is ShowFrame,
        answers(step, DecodeEvent::Succeeded) <==> step is Open || step is SendPacket
            || step is SendEnd || step is ShowFrame,
        step is Open <==> answers(step, DecodeEvent::Failed(DecodeStage::OpenInput)),
        step is Open <==> answers(step, DecodeEvent::Failed(DecodeStage::FindStream)),
        step is Open <==> answers(step, DecodeEvent::Failed(DecodeStage::CodecContext)),
        step is Open <==> answers(step, DecodeEvent::Failed(DecodeStage::VideoDecoder)),
        step is Open <==> answers(step, DecodeEvent::Failed(DecodeStage::ScalerInit)),
        step is ShowFrame <==> answers(step, DecodeEvent::Failed(DecodeStage::Scale)),
        step is SendPacket <==> answers(step, DecodeEvent::Failed(DecodeStage::SendPacket)),
        step is SendEnd <==> answers(step, DecodeEvent::Failed(DecodeStage::SendEnd)),
{
}

/// The period of a known frame rate is its inverse, so that as many frames as the
/// numerator says take as many seconds as the denominator says. Any other rate counts
/// as thirty frames in a second.
pub proof fn law_period_is_the_inverse_of_the_rate(
    numerator: i32,
    denominator: i32,
    period: (i32, i32),
)
    requires
        call_ensures(frame_period, (numerator, denominator), period),
    ensures
        numerator > 0 && denominator > 0 ==> numerator * period.0 == denominator * period.1
            && period.0 == denominator,
        numerator <= 0 || denominator <= 0 ==> period.0 == 1 && period.1 == 30,
{
    if numerator > 0 && denominator > 0 {
        assert(numerator * denominator == denominator * numerator) by (nonlinear_arith);
    }
}

/// Waiting from now on ends when the frame is due, and there is nothing to wait for once
/// it is.
pub proof fn law_waiting_ends_at_the_deadline(deadline: u128, now: u128, wait: Option<u128>)
    requires
        call_ensures(wait_before, (deadline, now), wait),
    ensures
        wait is None <==> now >= deadline,
        wait is Some ==> wait->0 > 0 && now + wait->0 == deadline,
{
}

/// The next frame is due a period after the last one or right now, whichever is later.
/// A decoder that is in time keeps the pace: its deadlines are just a period apart.
pub proof fn law_deadlines_keep_the_pace(deadline: u128, period: u128, now: u128, next: u128)
    requires
        deadline + period <= u128::MAX,
        call_ensures(advance_deadline, (deadline, period, now), next),
    ensures
        next >= now,
        next >= deadline + period,
        next == now || next == deadline + period,
        now <= deadline + period ==> next - deadline == period,
{
}

/// The filter that is chosen is Lanczos where a side gets longer, the bilinear one where
/// the size stays, and area where it only gets shorter.
pub proof fn law_filter_is_chosen_by_the_change(
    src: (u32, u32),
    out: (u32, u32),
    filter: ScaleFilter,
)
    requires
        call_ensures(choose_filter, (src, out), filter),
    ensures
        filter is Lanczos <==> src.0 < out.0 || src.1 < out.1,
        filter is Bilinear <==> src == out,
{
}

/// Rows that are packed lie one behind the other, without gaps: each byte comes from its
/// place in its row, and a buffer that is found to hold the rows has them all.
pub proof fn law_rows_are_packed(
    src: &[u8],
    len: usize,
    stride: usize,
    width: u32,
    height: u32,
    holds: bool,
    out: Vec<u8>,
    row: nat,
    col: nat,
)
    requires
        len == src@.len(),
        call_ensures(rows_in_buffer, (len, stride, width, height), holds),
        holds,
        call_ensures(pack_rows, (src, stride, width, height), out),
        row < height,
        col < width * 4,
    ensures
        row * stride + col < src@.len(),
        out@.len() == height * (width * 4),
        out@[row * (width * 4) + col] == src@[row * stride + col],
{
    law_packed_rows(src@, stride as nat, width as nat, height as nat, row, col);
    assert(row * stride <= (height - 1) * stride) by (nonlinear_arith)
        requires
            row <= height - 1,
            stride >= 0,
    ;
}

/// What is said of a failure ends with its cause, but that there is no video needs none.
pub proof fn law_failure_is_explained(stage: DecodeStage, cause: &str, text: String)
    requires
        call_ensures(decode_failure, (stage, cause), text),
    ensures
        stage is FindStream ==> text@ == "no video stream found"@,
        stage is OpenInput ==> text@ == "open input: "@ + cause@,
        stage is CodecContext ==> text@ == "codec ctx: "@ + cause@,
        stage is VideoDecoder ==> text@ == "video decoder: "@ + cause@,
        stage is ScalerInit ==> text@ == "scaler init: "@ + cause@,
        stage is Scale ==> text@ == "scale: "@ + cause@,
        stage is SendPacket ==> text@ == "send packet: "@ + cause@,
        stage is SendEnd ==> text@ == "send eof: "@ + cause@,
{
}

/// The decoder goes from step to step: a failure ends it at its stage, a packet of the
/// video goes to the codec, frames are taken until there is none and each is shown, and
/// after the last one the input is opened again, unless it is to stop.
pub proof fn law_decoder_goes_from_step_to_step(
    step: DecodeStep,
    event: DecodeEvent,
    next: DecodeStep,
)
    requires
        answers(step, event),
        call_ensures(next_decode_step, (step, event), next),
    ensures
        event is Failed <==> next is Failed,
        event is Failed ==> next->Failed_0 == event->Failed_0,
        next is Open <==> event == (DecodeEvent::StopRead { stop: false }),
        next is SendPacket <==> event == (DecodeEvent::Packet { stop: false, of_video: true }),
        next is SendEnd <==> event is EndOfInput,
        next is ShowFrame <==> event == (DecodeEvent::Frame { stop: false }),
        next is ReceiveFrame <==> event is Succeeded && !(step is Open),
        next is ReadPacket <==> {
            ||| step is Open && event is Succeeded
            ||| event == (DecodeEvent::Packet { stop: false, of_video: false })
            ||| event is NoFrame && step == (DecodeStep::ReceiveFrame { ended: false })
        },
{
}

/// A buffer is found to hold a picture just when each row of it ends inside the buffer,
/// and the rows together fit into memory.
pub proof fn law_rows_are_looked_for(
    len: usize,
    stride: usize,
    width: u32,
    height: u32,
    holds: bool,
)
    requires
        call_ensures(rows_in_buffer, (len, stride, width, height), holds),
    ensures
        holds <==> {
            &&& 4 * width <= usize::MAX
            &&& (height * width) * 4 <= isize::MAX
            &&& forall|row: nat|
                row < height ==> #[trigger] (row * stride as nat) + 4 * width <= len
        },
{
    law_buffer_holds_each_row(len as nat, stride as nat, width, height);
}

} // verus!
