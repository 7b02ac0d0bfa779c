//! Verified core of an event-driven trading engine.

pub mod text;
pub mod decimal;
pub mod strmap;
pub mod types;
pub mod commands;
pub mod events;
pub mod exchange;
pub mod margin;
pub mod cash_laws;
pub mod account_laws;
pub mod market;
pub mod hl_types;
pub mod order_manager;
pub mod inventory;
pub mod ledger_laws;
pub mod fill_simulator;
pub mod match_laws;
pub mod state;
pub mod position_laws;
pub mod context;
pub mod engine;
pub mod orchestrator;
pub mod group_laws;
pub mod paper_exchange;
pub mod mock_exchange;
pub mod venue_laws;
pub mod quote_source;
pub mod json;
pub mod wire;
pub mod hl_signing;
pub mod hl_client;
pub mod order_laws;
pub mod text_laws;
pub mod startup;
pub mod wasm_api;
pub mod sync;
pub mod trade_syncer;
pub mod account_syncer;
pub mod mock_syncer;
pub mod config;
pub mod plan_laws;
pub mod start_laws;
pub mod deferred;
pub mod poll_guard;
pub mod runner;
pub mod loop_laws;
pub mod phases;
pub mod backtest;
pub mod performance;
pub mod trade_laws;
pub mod report_laws;
pub mod book_laws;
pub mod reply_laws;
pub mod view_laws;
pub mod round_laws;
pub mod pace_laws;
