//! Immutable network configuration, passed into every component at
//! construction: no process-wide mutable state.
use vstd::prelude::*;

verus! {

/// The default RPC endpoint: a local development network.
pub const DEFAULT_RPC_URL: &'static str = "http://localhost:8545";

/// The default chain identifier: the local development network.
pub const DEFAULT_CHAIN_ID: u64 = 31337;

/// The default DID registry contract address after a local deploy.
pub const DEFAULT_DID_ETHR_CONTRACT_ADDRESS: &'static str = "0x5FbDB2315678afecb367f032d93F642f64180aa3";

/// The default linked-resources registry contract address after a local
/// deploy.
pub const DEFAULT_DLR_CONTRACT_ADDRESS: &'static str = "0xe7f1725E7734CE288F8367e1Bb143E90bb3F0512";

/// The default DID sub-method name of the local network.
pub const DEFAULT_DID_ETHR_SUB_METHOD: &'static str = "local";

/// The DID sub-method segment naming a ledger network.
#[derive(Debug, Clone, PartialEq, Eq)]
pub struct DidEthrSubMethod(pub String);

/// Where one registry contract lives: its address, the RPC endpoint to
/// reach it, and the chain it is deployed on.
#[derive(Debug, Clone, PartialEq, Eq)]
pub struct ContractNetworkConfig {
    pub contract_address: String,
    pub rpc_url: String,
    pub chain_id: u64,
}

/// The demo deployment's configuration: one RPC endpoint, one chain, and
/// the two registry contracts.
#[derive(Debug, Clone, PartialEq, Eq)]
pub struct DemoConfig {
    pub rpc_url: String,
    pub chain_id: u64,
    pub did_ethr_contract_address: String,
    pub dlr_contract_address: String,
    pub did_ethr_sub_method: DidEthrSubMethod,
}

impl DemoConfig {
    /// The configuration of the local development deployment.
    pub fn local() -> (r: DemoConfig)
        ensures
            r.rpc_url@ == DEFAULT_RPC_URL@,
            r.chain_id == DEFAULT_CHAIN_ID,
            r.did_ethr_contract_address@ == DEFAULT_DID_ETHR_CONTRACT_ADDRESS@,
            r.dlr_contract_address@ == DEFAULT_DLR_CONTRACT_ADDRESS@,
            r.did_ethr_sub_method.0@ == DEFAULT_DID_ETHR_SUB_METHOD@,
    {
        DemoConfig {
            rpc_url: String::from_str(DEFAULT_RPC_URL),
            chain_id: DEFAULT_CHAIN_ID,
            did_ethr_contract_address: String::from_str(DEFAULT_DID_ETHR_CONTRACT_ADDRESS),
            dlr_contract_address: String::from_str(DEFAULT_DLR_CONTRACT_ADDRESS),
            did_ethr_sub_method: DidEthrSubMethod(String::from_str(DEFAULT_DID_ETHR_SUB_METHOD)),
        }
    }

    /// The network configuration of the DID registry contract.
    pub fn get_did_ethr_network_config(&self) -> (r: ContractNetworkConfig)
        ensures
            r.contract_address@ == self.did_ethr_contract_address@,
            r.rpc_url@ == self.rpc_url@,
            r.chain_id == self.chain_id,
    {
        ContractNetworkConfig {
            contract_address: clone_string(&self.did_ethr_contract_address),
            rpc_url: clone_string(&self.rpc_url),
            chain_id: self.chain_id,
        }
    }

    /// The network configuration of the linked-resources registry contract.
    pub fn get_dlr_network_config(&self) -> (r: ContractNetworkConfig)
        ensures
            r.contract_address@ == self.dlr_contract_address@,
            r.rpc_url@ == self.rpc_url@,
            r.chain_id == self.chain_id,
    {
        ContractNetworkConfig {
            contract_address: clone_string(&self.dlr_contract_address),
            rpc_url: clone_string(&self.rpc_url),
            chain_id: self.chain_id,
        }
    }
}

/// A copy of a string with the same characters.
pub(crate) fn clone_string(s: &String) -> (r: String)
    ensures
        r@ == s@,
{
    String::from_str(s.as_str())
}

} // verus!
