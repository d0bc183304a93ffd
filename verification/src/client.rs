//! Where the scoring contracts live: an address and the node that serves it.

use alloy::primitives::Address;
use std::str::FromStr;
use vstd::prelude::*;

verus! {

/// The value of a hexadecimal digit (`0-9`, `a-f`, `A-F`), if it is one.
pub open spec fn hex_digit_value(c: char) -> Option<int> {
    let n = c as int;
    if 48 <= n <= 57 {
        Some(n - 48)
    } else if 97 <= n <= 102 {
        Some(n - 87)
    } else if 65 <= n <= 70 {
        Some(n - 55)
    } else {
        None
    }
}

/// The digits of an address text: the text without a leading `0x` or `0X`.
pub open spec fn address_digits(text: Seq<char>) -> Seq<char> {
    if text.len() >= 2 && text[0] == '0' && (text[1] == 'x' || text[1] == 'X') {
        text.skip(2)
    } else {
        text
    }
}

/// The 20 bytes that an address text denotes: after an optional `0x` or
/// `0X`, exactly 40 hexadecimal digits of either case, read in pairs, high
/// digit first; `None` for any other text.
pub open spec fn parsed_address(text: Seq<char>) -> Option<Seq<u8>> {
    let d = address_digits(text);
    if d.len() == 40 && forall|i: int| 0 <= i < 40 ==> #[trigger] hex_digit_value(d[i]) is Some {
        Some(
            Seq::new(
                20,
                |i: int|
                    (hex_digit_value(d[2 * i])->0 * 16 + hex_digit_value(d[2 * i + 1])->0) as u8,
            ),
        )
    } else {
        None
    }
}

/// `alloy::primitives::Address::from_str`: it decodes the text with
/// `const_hex::decode_to_array`, which strips a leading `0x` or `0X` and
/// then accepts exactly 40 hexadecimal digits of either case, decoded in
/// pairs; any other text is an error.
#[verifier::external_body]
fn parse_address(text: &str) -> (r: Option<[u8; 20]>)
    ensures
        match r {
            Some(bytes) => parsed_address(text@) == Some(bytes@),
            None => parsed_address(text@) is None,
        },
{
    match Address::from_str(text) {
        Ok(address) => Some(address.0.0),
        Err(_) => None,
    }
}

/// The text that `Address`'s `Display` writes for an address: `0x` and the
/// 40 digits in the mixed-case checksum form.
pub uninterp spec fn checksummed_address(bytes: Seq<u8>) -> Seq<char>;

/// `Address`'s `Display` (through `to_string`): the checksummed hexadecimal
/// text of the address. Its result is named `checksummed_address` of the
/// bytes; the checksum (a hash of the digits) is not stated here.
#[verifier::external_body]
fn address_text(bytes: [u8; 20]) -> (r: String)
    ensures
        r@ == checksummed_address(bytes@),
{
    Address::from(bytes).to_string()
}

/// A client of the scoring contract written for Stylus.
pub struct ContractClient {
    contract_address: [u8; 20],
    rpc_url: String,
}

/// A client of the scoring contract written in Solidity.
pub struct SolidityContractClient {
    contract_address: [u8; 20],
    rpc_url: String,
}

impl ContractClient {
    /// The client of the contract at `contract_address` served by
    /// `rpc_url`, or `None` when the address does not parse.
    pub fn try_new(contract_address: &str, rpc_url: &str) -> (r: Option<ContractClient>)
        ensures
            match r {
                Some(c) => parsed_address(contract_address@) == Some(c.address_bytes())
                    && c.url() == rpc_url@,
                None => parsed_address(contract_address@) is None,
            },
    {
        match parse_address(contract_address) {
            Some(_) => Some(Self::new(contract_address, rpc_url)),
            None => None,
        }
    }

    /// The client of the contract at `contract_address` served by
    /// `rpc_url`; the address must parse.
    pub fn new(contract_address: &str, rpc_url: &str) -> (r: ContractClient)
        requires
            parsed_address(contract_address@) is Some,
        ensures
            parsed_address(contract_address@) == Some(r.address_bytes()),
            r.url() == rpc_url@,
    {
        let bytes = match parse_address(contract_address) {
            Some(b) => b,
            None => [0u8; 20],
        };
        ContractClient { contract_address: bytes, rpc_url: rpc_url.to_owned() }
    }

    /// The bytes of the contract's address.
    pub closed spec fn address_bytes(&self) -> Seq<u8> {
        self.contract_address@
    }

    /// The URL of the node that serves the contract.
    pub closed spec fn url(&self) -> Seq<char> {
        self.rpc_url@
    }

    /// The contract's address.
    pub fn address(&self) -> (r: [u8; 20])
        ensures
            r@ == self.address_bytes(),
    {
        self.contract_address
    }

    /// The node that serves the contract.
    pub fn rpc_url(&self) -> (r: &String)
        ensures
            r@ == self.url(),
    {
        &self.rpc_url
    }

    /// The contract's address as checksummed hexadecimal text.
    pub fn address_hex(&self) -> (r: String)
        ensures
            r@ == checksummed_address(self.address_bytes()),
    {
        address_text(self.contract_address)
    }
}

impl SolidityContractClient {
    /// The client of the contract at `contract_address` served by
    /// `rpc_url`, or `None` when the address does not parse.
    pub fn try_new(contract_address: &str, rpc_url: &str) -> (r: Option<SolidityContractClient>)
        ensures
            match r {
                Some(c) => parsed_address(contract_address@) == Some(c.address_bytes())
                    && c.url() == rpc_url@,
                None => parsed_address(contract_address@) is None,
            },
    {
        match parse_address(contract_address) {
            Some(_) => Some(Self::new(contract_address, rpc_url)),
            None => None,
        }
    }

    /// The client of the contract at `contract_address` served by
    /// `rpc_url`; the address must parse.
    pub fn new(contract_address: &str, rpc_url: &str) -> (r: SolidityContractClient)
        requires
            parsed_address(contract_address@) is Some,
        ensures
            parsed_address(contract_address@) == Some(r.address_bytes()),
            r.url() == rpc_url@,
    {
        let bytes = match parse_address(contract_address) {
            Some(b) => b,
            None => [0u8; 20],
        };
        SolidityContractClient { contract_address: bytes, rpc_url: rpc_url.to_owned() }
    }

    /// The bytes of the contract's address.
    pub closed spec fn address_bytes(&self) -> Seq<u8> {
        self.contract_address@
    }

    /// The URL of the node that serves the contract.
    pub closed spec fn url(&self) -> Seq<char> {
        self.rpc_url@
    }

    /// The contract's address.
    pub fn address(&self) -> (r: [u8; 20])
        ensures
            r@ == self.address_bytes(),
    {
        self.contract_address
    }

    /// The node that serves the contract.
    pub fn rpc_url(&self) -> (r: &String)
        ensures
            r@ == self.url(),
    {
        &self.rpc_url
    }
}

} // verus!
