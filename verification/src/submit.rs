//! The transaction-submission plan: the fixed contract, method, gas and
//! confirmation policy of the relay, and the request a run submits.
//!
//! The library only decides what to submit; the surrounding binary signs
//! the call and talks to the RPC endpoint.

use vstd::prelude::*;

verus! {

/// The 20-byte address of the target price contract.
pub open spec fn contract_address_bytes() -> Seq<u8> {
    seq![
        0x86u8, 0x2a, 0xf0, 0xcf, 0x43, 0x97, 0xc0, 0x6b, 0x4b, 0x76, 0x28, 0x8c, 0x97, 0xab,
        0xef, 0xdf, 0x3e, 0xd5, 0xf1, 0x21,
    ]
}

/// The target contract address as bytes.
pub fn contract_address() -> (r: Vec<u8>)
    ensures
        r@ == contract_address_bytes(),
{
    let r: Vec<u8> = vec![
        0x86, 0x2a, 0xf0, 0xcf, 0x43, 0x97, 0xc0, 0x6b, 0x4b, 0x76, 0x28, 0x8c, 0x97, 0xab,
        0xef, 0xdf, 0x3e, 0xd5, 0xf1, 0x21,
    ];
    proof {
        assert(r@ =~= contract_address_bytes());
    }
    r
}

/// The contract method a run invokes with the normalized price.
pub fn method_name() -> (r: &'static str)
    ensures
        r@ == "setTokenPrice"@,
{
    "setTokenPrice"
}

/// The interface description of the target contract: the one method the
/// relay calls, taking the price as an unsigned 256-bit integer.
pub fn contract_interface() -> (r: &'static str)
    ensures
        r@
            == "[{\"inputs\":[{\"internalType\":\"uint256\",\"name\":\"_price\",\"type\":\"uint256\"}],\"name\":\"setTokenPrice\",\"outputs\":[],\"stateMutability\":\"nonpayable\",\"type\":\"function\"}]"@,
{
    "[{\"inputs\":[{\"internalType\":\"uint256\",\"name\":\"_price\",\"type\":\"uint256\"}],\"name\":\"setTokenPrice\",\"outputs\":[],\"stateMutability\":\"nonpayable\",\"type\":\"function\"}]"
}

/// The fixed HTTPS RPC endpoint of the target network.
pub fn rpc_endpoint() -> (r: &'static str)
    ensures
        r@ == "https://mainnet-dev.deeper.network/rpc"@,
{
    "https://mainnet-dev.deeper.network/rpc"
}

/// The fixed path of the encrypted keystore file.
pub fn keystore_path() -> (r: &'static str)
    ensures
        r@ == "/eth.keystore"@,
{
    "/eth.keystore"
}

/// The passphrase that unlocks the keystore.
pub fn keystore_passphrase() -> (r: &'static str)
    ensures
        r@ == "VGPUmPKNtBzDvCJK"@,
{
    "VGPUmPKNtBzDvCJK"
}

/// A fully decided on-chain call: everything the signing and sending side
/// needs, with no further choices left to it.
pub struct TxRequest {
    /// The 20-byte contract address.
    pub to: Vec<u8>,
    /// The method to invoke.
    pub method: &'static str,
    /// The normalized price, the method's sole argument.
    pub price: u64,
    /// The fixed, pre-computed gas limit; no estimation is done.
    pub gas: u64,
    /// How many confirmations to wait for.
    pub confirmations: usize,
}

/// Builds the call a run submits for a normalized price: the fixed
/// contract and method, the fixed gas limit of 140850, and a single
/// confirmation.
pub fn submission_request(price: u64) -> (r: TxRequest)
    ensures
        r.to@ == contract_address_bytes(),
        r.method@ == "setTokenPrice"@,
        r.price == price,
        r.gas == 140850,
        r.confirmations == 1,
{
    TxRequest {
        to: contract_address(),
        method: method_name(),
        price,
        gas: 140850,
        confirmations: 1,
    }
}

/// The 24-hour query window of the candle API, in epoch seconds:
/// `[now - 24h, now]`, clamped at the epoch.
pub fn gateio_window(now_millis: u128) -> (r: (u128, u128))
    ensures
        r.1 == now_millis / 1000,
        r.0 == if now_millis / 1000 >= 86400 {
            now_millis / 1000 - 86400
        } else {
            0
        },
{
    let now_secs = now_millis / 1000;
    let from = if now_secs >= 86400 {
        now_secs - 86400
    } else {
        0
    };
    (from, now_secs)
}

/// The 24-hour query window of the historical-range API, in epoch
/// milliseconds: `[now - 24h, now]`, clamped at the epoch.
pub fn livecoinwatch_window(now_millis: u128) -> (r: (u128, u128))
    ensures
        r.1 == now_millis,
        r.0 == if now_millis >= 86400000 {
            now_millis - 86400000
        } else {
            0
        },
{
    let from = if now_millis >= 86400000 {
        now_millis - 86400000
    } else {
        0
    };
    (from, now_millis)
}

/// The 1-hour query window of the graph API, in epoch seconds:
/// `[now - 1h, now]`, clamped at the epoch.
pub fn coin360_window(now_millis: u128) -> (r: (u128, u128))
    ensures
        r.1 == now_millis / 1000,
        r.0 == if now_millis / 1000 >= 3600 {
            now_millis / 1000 - 3600
        } else {
            0
        },
{
    let now_secs = now_millis / 1000;
    let from = if now_secs >= 3600 {
        now_secs - 3600
    } else {
        0
    };
    (from, now_secs)
}

} // verus!
