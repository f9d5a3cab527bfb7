//! A limbo server's logic: protocol versions, the text formats chat components travel in,
//! the connection lifecycle and the version-dependent world data.
pub mod version;
pub mod strs;
pub mod rgb_color;
pub mod named_color;
pub mod text_color;
pub mod click_event;
pub mod hover_event;
pub mod style;
pub mod component_content;
pub mod component;
pub mod json;
pub mod json_profile;
pub mod component_json;
pub mod json_order;
pub mod component_model;
pub mod hex;
pub mod component_from_json;
pub mod client_intent;
pub mod connection_id;
pub mod forwarding_mode;
pub mod server_policy;
pub mod console_command;
pub mod memory_usage;
pub mod version_match;
pub mod resource_load_error;
pub mod resource_selection;
pub mod dimension;
pub mod dimension_registry;
pub mod dimension_lookup_error;
pub mod versioned_dimension;
pub mod dimension_type;
pub mod tag_entry;
pub mod tag_registry;
pub mod update_tags_error;
pub mod update_tags_registry;
pub mod legacy_codes;
pub mod mini_message_node;
pub mod mini_message;
pub mod component_ops;
pub mod text_parser;
pub mod connection_state;
pub mod game_profile;
pub mod handshake;
pub mod login_start;
pub mod plugin_message;
pub mod login_plugin_response;
pub mod serverbound_packet;
pub mod connection_action;
pub mod connection_flow;
pub mod byte_reader;
pub mod byte_writer;
pub mod nbt_encode_error;
pub mod write_compound;
pub mod packet_decode;
pub mod connected_player;
pub mod connection_registry;
pub mod id_source;
pub mod nbt;
pub mod nbt_number;
pub mod binary64;
pub mod binary32;
pub mod component_nbt;
pub mod component_writer;
