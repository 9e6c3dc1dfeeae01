//! Core of a price-time-priority exchange: a limit order book over a
//! bucketed price ladder, the matching algorithm that drives it, and the
//! risk engine that reserves balances before matching and reconciles
//! fills and cancels afterwards.
//!
//! The heart of the crate is [`order_book`], whose matching scan is
//! specified exactly by [`order_book::spec_match`] and proved to conserve
//! volume, keep the book uncrossed and respect time priority, and
//! [`risk_engine`], whose reservation and reconciliation steps are proved
//! in [`risk_totals`] to conserve every asset's total of balances plus
//! outstanding reservations. [`order_book_processor`] and
//! [`risk_engine_processor`] drive the two from typed command streams;
//! the transport that carries those streams lives outside this crate.

pub mod account;
pub mod asset;
pub mod bit_set;
pub mod commands;
pub mod event;
pub mod exchange_settings;
pub mod message;
pub mod order;
pub mod order_book;
pub mod order_book_processor;
pub mod order_bucket;
pub mod order_record;
pub mod order_side;
pub mod participant;
pub mod position_record;
pub mod primitives;
pub mod risk_engine;
pub mod risk_engine_processor;
pub mod risk_order;
pub mod risk_totals;
pub mod router;

pub use order_side::OrderSide;
