//! Emulator core for a networked hardware test fixture: a line-oriented
//! ASCII protocol codec, a byte-stream framer, and a simulated device
//! (three LEDs, a servo, a temperature/humidity sensor, and a scripted
//! self-test sequence) that advances with time.

pub mod device;
pub mod framing;
pub mod pipeline;
pub mod protocol;
