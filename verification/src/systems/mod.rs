pub mod chunk_population;
pub mod miner_input;
pub mod performance_info;
