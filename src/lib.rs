//! Date-driven caret color for editor themes: a color gradient over the
//! calendar year, and a patcher that swaps a theme's caret color; beside
//! them, the request shapes of a small file-sharing service client.

pub mod color;
pub mod text;
pub mod gradient;
pub mod theme;
pub mod schedule;
pub mod service;
