pub mod bitops;
pub mod bluetooth;
pub mod burst;
pub mod channelizer;
pub mod fsk;
pub mod stream;
