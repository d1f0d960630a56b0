pub mod ring_buffer;

pub use ring_buffer::{Index, RingBuffer, RingBufferView};
