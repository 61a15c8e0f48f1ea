//! Shared utilities and data types: arithmetic helpers, string helpers,
//! and two small builder-style value types with a verified textual
//! serialization.

pub mod codec;
pub mod math;
pub mod text;
pub mod types;

pub use codec::deserialize_message;
pub use codec::deserialize_user_info;
pub use codec::serialize_message;
pub use codec::serialize_user_info;
pub use math::add;
pub use math::factorial;
pub use math::fibonacci;
pub use text::create_greeting;
pub use text::reverse_string;
pub use types::Message;
pub use types::UserInfo;
