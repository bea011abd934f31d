pub mod constants;
pub mod direction;
pub mod tile;
pub mod paths;
pub mod walk_order;
pub mod rng;
pub mod card;
pub mod player;
pub mod fireball;
pub mod monster;
pub mod board;
pub mod effects;
pub mod messages;
pub mod undo;
pub mod server;
pub mod broadcast;
pub mod handlers;
pub mod scene;
pub mod client;
pub mod card_effect;
pub mod card_input;
pub mod layout;
pub mod laws;
