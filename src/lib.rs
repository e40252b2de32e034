//! Chart scaling and layout engine for a candlestick price chart.
//!
//! Prices are exact fixed-point decimals; pixel positions are exact
//! rationals that the drawing surface turns into floating point.
//!
//! - `fixed`, `decimal`: prices, and their parsing and printing;
//! - `ticks`: nice steps and tick sets for the price axis;
//! - `axis`, `xaxis`: price <-> pixel mapping, and both axes' primitives;
//! - `layout`, `render`: candle width and spacing, and candle geometry;
//! - `candle`, `buffer`, `session`: candles, the bounded window of a series
//!   and the series of a session;
//! - `chart`: one frame from a series;
//! - `symbols`, `select`: the exchange's symbols and the symbol picker.
use vstd::prelude::*;

pub mod axis;
pub mod buffer;
pub mod candle;
pub mod chart;
pub mod decimal;
pub mod fixed;
pub mod geometry;
pub mod layout;
pub mod render;
pub mod select;
pub mod session;
pub mod symbols;
pub mod ticks;
pub mod xaxis;

verus! {

} // verus!
