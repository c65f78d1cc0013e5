use wallpaper_poc::video::{
    advance_deadline, choose_filter, decode_failure, frame_period, next_decode_step, pack_rows,
    rows_in_buffer, wait_before, DecodeEvent, DecodeStage, DecodeStep, DecodedFrame, ScaleFilter,
};

#[test]
fn the_filter_follows_the_size() {
    assert_eq!(choose_filter((640, 480), (1280, 960)), ScaleFilter::Lanczos);
    assert_eq!(choose_filter((640, 480), (320, 240)), ScaleFilter::Area);
    assert_eq!(choose_filter((640, 480), (640, 480)), ScaleFilter::Bilinear);
    assert_eq!(choose_filter((640, 480), (320, 481)), ScaleFilter::Lanczos);
    assert_eq!(choose_filter((641, 480), (640, 480)), ScaleFilter::Area);
}

#[test]
fn the_period_is_the_inverse_of_the_rate() {
    assert_eq!(frame_period(30000, 1001), (1001, 30000));
    assert_eq!(frame_period(25, 1), (1, 25));
    assert_eq!(frame_period(0, 1), (1, 30));
    assert_eq!(frame_period(25, 0), (1, 30));
    assert_eq!(frame_period(-25, -1), (1, 30));
}

#[test]
fn rows_are_packed_without_gaps() {
    let mut src = Vec::new();
    for row in 0..3u8 {
        for col in 0..8u8 {
            src.push(row * 16 + col);
        }
        src.extend_from_slice(&[0xee; 4]);
    }
    assert!(rows_in_buffer(src.len(), 12, 2, 3));
    let packed = pack_rows(&src, 12, 2, 3);
    let expected: Vec<u8> = (0..3u8).flat_map(|r| (0..8u8).map(move |c| r * 16 + c)).collect();
    assert_eq!(packed, expected);
    let frame = DecodedFrame { width: 2, height: 3, rgba: packed };
    assert_eq!(frame.rgba.len(), (frame.width * frame.height * 4) as usize);
}

#[test]
fn the_last_row_needs_no_gap() {
    let src = vec![7u8; 8 + 12];
    assert!(rows_in_buffer(src.len(), 12, 2, 2));
    assert_eq!(pack_rows(&src, 12, 2, 2), vec![7u8; 16]);
}

#[test]
fn a_buffer_may_be_too_short() {
    assert!(!rows_in_buffer(19, 12, 2, 2));
    assert!(rows_in_buffer(0, 12, 2, 0));
    assert!(rows_in_buffer(0, 0, 0, 9));
    assert!(!rows_in_buffer(usize::MAX, 0, u32::MAX, u32::MAX));
    assert!(pack_rows(&[], 12, 2, 0).is_empty());
}

#[test]
fn a_frame_waits_until_it_is_due() {
    assert_eq!(wait_before(1000, 400), Some(600));
    assert_eq!(wait_before(1000, 1000), None);
    assert_eq!(wait_before(1000, 1001), None);
}

#[test]
fn a_late_decoder_does_not_hurry() {
    assert_eq!(advance_deadline(1000, 33, 1010), 1033);
    assert_eq!(advance_deadline(1000, 33, 1033), 1033);
    assert_eq!(advance_deadline(1000, 33, 5000), 5000);
}

#[test]
fn a_video_plays_over_and_over() {
    let ok = DecodeEvent::Succeeded;
    let mut step = DecodeStep::ReadStop;
    step = next_decode_step(step, DecodeEvent::StopRead { stop: false });
    assert_eq!(step, DecodeStep::Open);
    step = next_decode_step(step, ok);
    assert_eq!(step, DecodeStep::ReadPacket);
    step = next_decode_step(step, DecodeEvent::Packet { stop: false, of_video: false });
    assert_eq!(step, DecodeStep::ReadPacket);
    step = next_decode_step(step, DecodeEvent::Packet { stop: false, of_video: true });
    assert_eq!(step, DecodeStep::SendPacket);
    step = next_decode_step(step, ok);
    assert_eq!(step, DecodeStep::ReceiveFrame { ended: false });
    step = next_decode_step(step, DecodeEvent::Frame { stop: false });
    assert_eq!(step, DecodeStep::ShowFrame { ended: false });
    step = next_decode_step(step, ok);
    assert_eq!(step, DecodeStep::ReceiveFrame { ended: false });
    step = next_decode_step(step, DecodeEvent::NoFrame);
    assert_eq!(step, DecodeStep::ReadPacket);
    step = next_decode_step(step, DecodeEvent::EndOfInput);
    assert_eq!(step, DecodeStep::SendEnd);
    step = next_decode_step(step, ok);
    assert_eq!(step, DecodeStep::ReceiveFrame { ended: true });
    step = next_decode_step(step, DecodeEvent::Frame { stop: false });
    assert_eq!(step, DecodeStep::ShowFrame { ended: true });
    step = next_decode_step(step, ok);
    assert_eq!(step, DecodeStep::ReceiveFrame { ended: true });
    step = next_decode_step(step, DecodeEvent::NoFrame);
    assert_eq!(step, DecodeStep::ReadStop);
}

#[test]
fn a_decoder_that_is_told_to_stop_ends() {
    let stopped = DecodeEvent::StopRead { stop: true };
    assert_eq!(next_decode_step(DecodeStep::ReadStop, stopped), DecodeStep::Finished);
    let packet = DecodeEvent::Packet { stop: true, of_video: true };
    assert_eq!(next_decode_step(DecodeStep::ReadPacket, packet), DecodeStep::Finished);
    let frame = DecodeEvent::Frame { stop: true };
    assert_eq!(
        next_decode_step(DecodeStep::ReceiveFrame { ended: false }, frame),
        DecodeStep::Finished
    );
    assert_eq!(
        next_decode_step(DecodeStep::ReceiveFrame { ended: true }, frame),
        DecodeStep::ReadStop
    );
}

#[test]
fn a_decoder_without_a_receiver_ends() {
    let gone = DecodeEvent::ReceiverGone;
    assert_eq!(next_decode_step(DecodeStep::ShowFrame { ended: false }, gone), DecodeStep::Finished);
    assert_eq!(next_decode_step(DecodeStep::ShowFrame { ended: true }, gone), DecodeStep::ReadStop);
}

#[test]
fn a_step_that_fails_ends_the_decoder() {
    for (step, stage) in [
        (DecodeStep::Open, DecodeStage::OpenInput),
        (DecodeStep::Open, DecodeStage::FindStream),
        (DecodeStep::Open, DecodeStage::CodecContext),
        (DecodeStep::Open, DecodeStage::VideoDecoder),
        (DecodeStep::Open, DecodeStage::ScalerInit),
        (DecodeStep::SendPacket, DecodeStage::SendPacket),
        (DecodeStep::SendEnd, DecodeStage::SendEnd),
        (DecodeStep::ShowFrame { ended: false }, DecodeStage::Scale),
        (DecodeStep::ShowFrame { ended: true }, DecodeStage::Scale),
    ] {
        assert_eq!(next_decode_step(step, DecodeEvent::Failed(stage)), DecodeStep::Failed(stage));
    }
}

#[test]
fn a_failure_is_put_into_words() {
    assert_eq!(decode_failure(DecodeStage::OpenInput, "gone"), "open input: gone");
    assert_eq!(decode_failure(DecodeStage::FindStream, "gone"), "no video stream found");
    assert_eq!(decode_failure(DecodeStage::CodecContext, "x"), "codec ctx: x");
    assert_eq!(decode_failure(DecodeStage::VideoDecoder, "x"), "video decoder: x");
    assert_eq!(decode_failure(DecodeStage::ScalerInit, "x"), "scaler init: x");
    assert_eq!(decode_failure(DecodeStage::Scale, "x"), "scale: x");
    assert_eq!(decode_failure(DecodeStage::SendPacket, "x"), "send packet: x");
    assert_eq!(decode_failure(DecodeStage::SendEnd, ""), "send eof: ");
}
