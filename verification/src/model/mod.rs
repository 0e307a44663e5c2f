pub mod member;
pub mod message;
pub mod message_list;
pub mod room;
pub mod strmap;
pub mod raw_event;
pub mod sync_response;
