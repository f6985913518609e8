//! Settings of the launcher.
use crate::hexadecimal::{
    address_digits, has_0x, hex_bytes, hex_digit, is_address, is_blank, parse_address,
};
use crate::text::{parse_u32, replace_text, replaced, u32_in};
use crate::types::Address;
use crate::u256::{u256_mul, U256};
use crate::wallet::{key_from_str, key_in, Wallet, ARBITRUM_CHAIN_ID};
use vstd::prelude::*;
use vstd::string::StringSliceAdditionalSpecFns;
use vstd::utf8::{encode_utf8, is_ascii_chars, is_ascii_chars_encode_utf8};

verus! {

/// The variables of the environment that the settings come from, each as far as it is set.
#[derive(Debug, Clone)]
pub struct ConfigVars {
    /// `ARBITRUM_RPC_URL`.
    pub rpc_url: Option<String>,
    /// `ARBITRUM_WS_URL`.
    pub ws_url: Option<String>,
    /// `CONTRACT_ADDRESS`.
    pub contract_address: Option<String>,
    /// `MIN_PROFIT_BPS`.
    pub min_profit_bps: Option<String>,
    /// `EXECUTE_MODE`.
    pub execute_mode: Option<String>,
}

/// Why there are no settings.
#[derive(Debug, Clone, Copy, PartialEq, Eq, Structural)]
pub enum ConfigError {
    /// The private key is not one.
    PrivateKey,
    /// The contract's address is not one.
    ContractAddress,
}

/// Settings of the launcher.
#[derive(Clone)]
pub struct MevConfig {
    pub http_rpc: String,
    pub ws_rpc: String,
    /// The contract that takes the flash loans.
    pub contract_address: Address,
    /// What signs transactions.
    pub wallet: Wallet,
    /// The least profit of an opportunity, in basis points.
    pub min_profit_bps: u32,
    /// Whether opportunities are taken, and not only simulated.
    pub execute_live: bool,
    /// Flash loans to try, in wei.
    pub flash_amounts: Vec<U256>,
}

/// What a variable holds, or a default where it is not set.
pub open spec fn or_default(var: Option<String>, default: Seq<char>) -> Seq<char> {
    match var {
        Some(text) => text@,
        None => default,
    }
}

/// The endpoint for requests.
pub open spec fn http_rpc_of(vars: ConfigVars) -> Seq<char> {
    or_default(vars.rpc_url, "https://arb1.arbitrum.io/rpc"@)
}

/// The endpoint for subscriptions: by default that for requests, over WebSocket.
pub open spec fn ws_rpc_of(vars: ConfigVars) -> Seq<char> {
    or_default(vars.ws_url, replaced(http_rpc_of(vars), "https://"@, "wss://"@))
}

/// The text of the contract's address.
pub open spec fn contract_text(vars: ConfigVars) -> Seq<u8> {
    encode_utf8(or_default(vars.contract_address, "0x42a372E2f161e978ee9791F399c27c56D6CB55eb"@))
}

/// The least profit: ten where the variable is not set or holds no number.
pub open spec fn min_profit_of(vars: ConfigVars) -> u32 {
    match vars.min_profit_bps {
        Some(text) => match u32_in(text@) {
            Some(bps) => bps,
            None => 10,
        },
        None => 10,
    }
}

/// Whether opportunities are taken.
pub open spec fn is_live(vars: ConfigVars) -> bool {
    vars.execute_mode matches Some(mode) && mode@ == "live"@
}

/// Flash loans of one, five, ten and fifty ether.
pub open spec fn flash_wei() -> Seq<nat> {
    seq![
        1_000_000_000_000_000_000,
        5_000_000_000_000_000_000,
        10_000_000_000_000_000_000,
        50_000_000_000_000_000_000,
    ]
}

/// Numbers of 256 bits as numbers.
pub open spec fn numbers(values: Seq<U256>) -> Seq<nat> {
    values.map_values(|value: U256| value@)
}

/// What a variable holds, or a default where it is not set.
fn text_or(var: &Option<String>, default: &str) -> (r: String)
    ensures
        r@ == or_default(*var, default@),
{
    match var {
        Some(text) => text.clone(),
        None => default.to_owned(),
    }
}

/// The settings that the variables give with the key.
pub open spec fn is_config_of(config: MevConfig, vars: ConfigVars, key: Seq<u8>) -> bool {
    &&& config.http_rpc@ == http_rpc_of(vars)
    &&& config.ws_rpc@ == ws_rpc_of(vars)
    &&& config.contract_address@ == hex_bytes(address_digits(contract_text(vars)))
    &&& config.wallet.key@ == key
    &&& config.wallet.chain_id == ARBITRUM_CHAIN_ID
    &&& config.min_profit_bps == min_profit_of(vars)
    &&& config.execute_live == is_live(vars)
    &&& numbers(config.flash_amounts@) == flash_wei()
}

impl MevConfig {
    /// The settings that the environment gives, and the private key in it. A key that is none is
    /// reported before an address that is none.
    pub fn from_env(vars: &ConfigVars, private_key: &str) -> (r: Result<MevConfig, ConfigError>)
        ensures
            match r {
                Ok(config) => key_in(private_key.spec_bytes()) is Some && is_address(
                    contract_text(*vars),
                ) && is_config_of(config, *vars, key_in(private_key.spec_bytes())->0),
                Err(ConfigError::PrivateKey) => key_in(private_key.spec_bytes()) is None,
                Err(ConfigError::ContractAddress) => key_in(private_key.spec_bytes()) is Some
                    && !is_address(contract_text(*vars)),
            },
    {
        match key_from_str(private_key) {
            Some(key) => Self::from_vars(vars, key),
            None => Err(ConfigError::PrivateKey),
        }
    }

    /// The settings that the variables give with a key.
    pub fn from_vars(vars: &ConfigVars, key: [u8; 32]) -> (r: Result<MevConfig, ConfigError>)
        ensures
            match r {
                Ok(config) => is_address(contract_text(*vars)) && is_config_of(config, *vars, key@),
                Err(error) => error == ConfigError::ContractAddress && !is_address(
                    contract_text(*vars),
                ),
            },
    {
        let http_rpc: String = text_or(&vars.rpc_url, "https://arb1.arbitrum.io/rpc");
        proof {
            reveal_strlit("https://");
        }
        let ws_rpc: String = match &vars.ws_url {
            Some(url) => url.clone(),
            None => replace_text(http_rpc.as_str(), "https://", "wss://"),
        };
        let contract: String = text_or(
            &vars.contract_address,
            "0x42a372E2f161e978ee9791F399c27c56D6CB55eb",
        );
        let min_profit_bps: u32 = match &vars.min_profit_bps {
            Some(text) => match parse_u32(text.as_str()) {
                Some(bps) => bps,
                None => 10,
            },
            None => 10,
        };
        let execute_live: bool = match &vars.execute_mode {
            Some(mode) => *mode == "live".to_owned(),
            None => false,
        };
        let contract_address: Address = match parse_address(contract.as_str()) {
            Some(address) => address,
            None => {
                return Err(ConfigError::ContractAddress);
            },
        };
        let flash_amounts: Vec<U256> = vec![
            U256::from_u128(1_000_000_000_000_000_000),
            U256::from_u128(5_000_000_000_000_000_000),
            U256::from_u128(10_000_000_000_000_000_000),
            u256_mul(&U256::from_u128(50), &U256::from_u128(1_000_000_000_000_000_000)),
        ];
        assert(numbers(flash_amounts@) =~= flash_wei());
        Ok(
            MevConfig {
                http_rpc,
                ws_rpc,
                contract_address,
                wallet: Wallet { key, chain_id: ARBITRUM_CHAIN_ID },
                min_profit_bps,
                execute_live,
                flash_amounts,
            },
        )
    }
}

/// Text without blanks keeps all of its bytes.
proof fn lemma_no_blanks(text: Seq<u8>)
    requires
        forall|i: int| 0 <= i < text.len() ==> !is_blank(#[trigger] text[i]),
    ensures
        text.filter(|c: u8| !is_blank(c)) == text,
    decreases text.len(),
{
    reveal(Seq::filter);
    if text.len() > 0 {
        let rest = text.drop_last();
        assert forall|i: int| 0 <= i < rest.len() implies !is_blank(#[trigger] rest[i]) by {
            assert(rest[i] == text[i]);
        }
        lemma_no_blanks(rest);
        assert(rest.push(text.last()) =~= text);
    }
}

/// Where the contract's address is left to its default, only the key can be missing.
pub proof fn law_default_contract_is_an_address(vars: ConfigVars)
    requires
        vars.contract_address is None,
    ensures
        is_address(contract_text(vars)),
{
    let text = "0x42a372E2f161e978ee9791F399c27c56D6CB55eb";
    reveal_strlit("0x42a372E2f161e978ee9791F399c27c56D6CB55eb");
    assert(is_ascii_chars(text@));
    is_ascii_chars_encode_utf8(text@);
    let bytes = contract_text(vars);
    assert(bytes =~= Seq::new(text@.len(), |i: int| text@[i] as u8));
    assert(has_0x(bytes));
    let digits = bytes.skip(2);
    assert forall|i: int| 0 <= i < digits.len() implies (#[trigger] hex_digit(digits[i])) is Some
        && !is_blank(digits[i]) by {
        assert(digits[i] == text@[i + 2] as u8);
    }
    assert forall|i: int| 0 <= i < digits.len() implies !is_blank(#[trigger] digits[i]) by {
        assert(hex_digit(digits[i]) is Some);
    }
    lemma_no_blanks(digits);
}

/// Where only the endpoint for requests is set, to a secure one, subscriptions go to the same
/// place over secure WebSocket.
pub proof fn law_default_ws_endpoint_is_secure(vars: ConfigVars)
    requires
        vars.ws_url is None,
        http_rpc_of(vars).len() >= 8,
        http_rpc_of(vars).take(8) == "https://"@,
    ensures
        ws_rpc_of(vars) == "wss://"@ + replaced(http_rpc_of(vars).skip(8), "https://"@, "wss://"@),
{
    reveal_strlit("https://");
    assert("https://"@.len() == 8);
}

/// Each setting is what its variable holds. Without one, requests go to the public endpoint of
/// Arbitrum One, subscriptions to the same place over WebSocket, the contract is the one that
/// stands there already, the least profit is ten basis points, and nothing is sent. Transactions
/// are signed for Arbitrum One, and loans are of one, five, ten and fifty ether.
pub proof fn law_settings_follow_the_variables(config: MevConfig, vars: ConfigVars, key: Seq<u8>)
    requires
        is_config_of(config, vars, key),
    ensures
        vars.rpc_url matches Some(url) ==> config.http_rpc@ == url@,
        vars.rpc_url is None ==> config.http_rpc@ == "https://arb1.arbitrum.io/rpc"@,
        vars.ws_url matches Some(url) ==> config.ws_rpc@ == url@,
        vars.ws_url is None ==> config.ws_rpc@ == replaced(
            config.http_rpc@,
            "https://"@,
            "wss://"@,
        ),
        vars.contract_address matches Some(text) ==> config.contract_address@ == hex_bytes(
            address_digits(encode_utf8(text@)),
        ),
        vars.contract_address is None ==> config.contract_address@ == hex_bytes(
            address_digits(encode_utf8("0x42a372E2f161e978ee9791F399c27c56D6CB55eb"@)),
        ),
        config.wallet.key@ == key,
        config.wallet.chain_id == 42161,
        vars.min_profit_bps matches Some(text) ==> (u32_in(text@) matches Some(bps)
            ==> config.min_profit_bps == bps),
        vars.min_profit_bps matches Some(text) ==> u32_in(text@) is None ==> config.min_profit_bps
            == 10,
        vars.min_profit_bps is None ==> config.min_profit_bps == 10,
        config.execute_live <==> (vars.execute_mode matches Some(mode) && mode@ == "live"@),
        config.flash_amounts@.len() == 4,
        config.flash_amounts@[0]@ == 1_000_000_000_000_000_000,
        config.flash_amounts@[1]@ == 5_000_000_000_000_000_000,
        config.flash_amounts@[2]@ == 10_000_000_000_000_000_000,
        config.flash_amounts@[3]@ == 50_000_000_000_000_000_000nat,
{
    let amounts = numbers(config.flash_amounts@);
    assert(amounts.len() == 4);
    assert(amounts[0] == config.flash_amounts@[0]@);
    assert(amounts[1] == config.flash_amounts@[1]@);
    assert(amounts[2] == config.flash_amounts@[2]@);
    assert(amounts[3] == config.flash_amounts@[3]@);
}

/// The contract's address is the text of its variable where that is set, and a fixed one otherwise.
pub proof fn law_contract_text_is_the_variable(vars: ConfigVars)
    ensures
        vars.contract_address matches Some(text) ==> contract_text(vars) == encode_utf8(text@),
        vars.contract_address is None ==> contract_text(vars) == encode_utf8(
            "0x42a372E2f161e978ee9791F399c27c56D6CB55eb"@,
        ),
{
}

} // verus!
