//! Collaborative food orders in a chat.
//!
//! Members of a conversation start named orders, select an item in them by
//! short text commands or by a tap on a button, and the one who started an
//! order ends it. This library is the part that decides: it interprets the
//! commands and keeps the orders of each conversation. It takes and gives
//! plain values only; receiving messages and sending replies is left to the
//! program around it.
//!
//! - [`command`] interprets the text of a message.
//! - [`order`] is one order: who has selected what.
//! - [`conversation_orders`] holds the open orders of one conversation.
//! - [`bot`] holds the conversations, carries the commands out and words the
//!   replies.
//! - [`keyboard`], [`user`], [`text`] and [`sorted`] are what those are made of.
//!
//! Each type has a mathematical model, its view, and each function states in
//! its contract what it returns and how it changes the model.
pub mod bot;
pub mod command;
pub mod conversation_orders;
pub mod keyboard;
pub mod order;
pub mod sorted;
pub mod text;
pub mod user;
