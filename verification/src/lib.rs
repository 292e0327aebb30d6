//! Small command-line tools and the logic behind them.
pub mod aliasopts;
pub mod assoc;
pub mod donations;
pub mod dynamo;
pub mod echo;
pub mod fingerprint;
pub mod fpfiles;
pub mod iniciante;
pub mod judge;
pub mod line_range;
pub mod listing;
pub mod matcher;
pub mod numbers;
pub mod path;
pub mod patterns;
pub mod sorting;
pub mod text;
