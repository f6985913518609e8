//! Verified core of an MEV engine: swap simulation, calldata decoding, RLP and
//! multicall encoding, pool discovery and the decisions of the launcher loops.
pub mod abi;
pub mod amm;
pub mod bytes;
pub mod config;
pub mod discovery;
pub mod hexadecimal;
pub mod hot_path;
pub mod launcher;
pub mod mev_config;
pub mod multicall;
pub mod opportunities;
pub mod pool_list;
pub mod pool_manager;
pub mod pools;
pub mod providers;
pub mod quotes;
pub mod readings;
pub mod rlp;
pub mod seqs;
pub mod simulator;
pub mod swap_decoder;
pub mod text;
pub mod trips;
pub mod types;
pub mod u256;
pub mod wallet;
