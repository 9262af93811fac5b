//! MQTT 5 wire codec and client session engine.
//!
//! `codec`, `wire` and `property` hold the field encodings; `packet` the
//! packet model and layouts; `decode`, `encode` and `frame` the frame
//! readers and writers with their laws; `session` the client's state machine.

pub mod buffer;
pub mod codec;
pub mod decode;
pub mod encode;
pub mod error;
pub mod frame;
pub mod packet;
pub mod property;
pub mod session;
pub mod user_props;
pub mod wire;

pub use crate::buffer::buf_contents;
pub use crate::codec::{
    decode_variable_len_integer, encode_variable_len_integer, variable_byte_int_size,
    MQTTCodecError, PacketType, QoSLevel, Reason,
};
pub use crate::encode::{encode, encode_packet};
pub use crate::error::{ErrorKind, MqttError};
pub use crate::frame::{decode, decode_fixed_header, decode_packet};
pub use crate::packet::{
    ConnAck, Connect, Disconnect, FixedHeader, Packet, PubResp, Publish, Subscribe, Subscription,
};
pub use crate::property::{check_property, Property, PropertyType, PropertyValue};
pub use crate::session::{Actions, Outcome, Session};
pub use crate::user_props::{Size, UserPropertyMap};
