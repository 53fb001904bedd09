use aeron_rs::{clock, context, frame};

#[test]
fn public_modules_accessible() {
    let _ = context::DriverContext::default();
    let _ = clock::NanoClock::new();
    let _ = frame::FRAME_HEADER_LENGTH;
}
