//! The storage of the proxy contract, holding the intermediated farms as a
//! set in the order they were added.

use vstd::prelude::*;

use crate::payment::bytes_eq;
use crate::proxy_farm::{bytes_seq_view, farms_with, farms_without, ProxyFarmModule, ProxyStorageView};
use crate::token_send::TokenSendModule;

verus! {

/// The storage of the proxy contract: the gas limit of the token-send
/// module, the intermediated farms, and the identifiers of the tokens it
/// handles.
pub struct ProxyStorage {
    transfer_exec_gas_limit: u64,
    intermediated_farms: Vec<Vec<u8>>,
    wrapped_farm_token_id: Vec<u8>,
    wrapped_lp_token_id: Vec<u8>,
    locked_asset_token_id: Vec<u8>,
    asset_token_id: Vec<u8>,
}

impl ProxyStorage {
    #[verifier::type_invariant]
    spec fn farms_distinct(&self) -> bool {
        bytes_seq_view(self.intermediated_farms@).no_duplicates()
    }

    closed spec fn view_storage(&self) -> ProxyStorageView {
        ProxyStorageView {
            transfer_exec_gas_limit: self.transfer_exec_gas_limit,
            intermediated_farms: bytes_seq_view(self.intermediated_farms@),
            wrapped_farm_token_id: self.wrapped_farm_token_id@,
            wrapped_lp_token_id: self.wrapped_lp_token_id@,
            locked_asset_token_id: self.locked_asset_token_id@,
            asset_token_id: self.asset_token_id@,
        }
    }

    /// The storage with the given gas limit and token identifiers, and no
    /// intermediated farm.
    pub fn new(
        transfer_exec_gas_limit: u64,
        wrapped_farm_token_id: Vec<u8>,
        wrapped_lp_token_id: Vec<u8>,
        locked_asset_token_id: Vec<u8>,
        asset_token_id: Vec<u8>,
    ) -> (m: Self)
        ensures
            m.proxy_storage() == (ProxyStorageView {
                transfer_exec_gas_limit,
                intermediated_farms: Seq::empty(),
                wrapped_farm_token_id: wrapped_farm_token_id@,
                wrapped_lp_token_id: wrapped_lp_token_id@,
                locked_asset_token_id: locked_asset_token_id@,
                asset_token_id: asset_token_id@,
            }),
            m.spec_transfer_exec_gas_limit() == transfer_exec_gas_limit,
    {
        let m = ProxyStorage {
            transfer_exec_gas_limit,
            intermediated_farms: Vec::new(),
            wrapped_farm_token_id,
            wrapped_lp_token_id,
            locked_asset_token_id,
            asset_token_id,
        };
        assert(bytes_seq_view(m.intermediated_farms@) =~= Seq::empty());
        m
    }

    /// The intermediated farms, in the order they were added; no two are
    /// the same.
    pub fn intermediated_farms(&self) -> (f: &Vec<Vec<u8>>)
        ensures
            bytes_seq_view(f@) == self.proxy_storage().intermediated_farms,
            self.proxy_storage().intermediated_farms.no_duplicates(),
    {
        proof {
            use_type_invariant(self);
        }
        &self.intermediated_farms
    }

    /// The position of `address` among the intermediated farms, if it is one.
    fn find_farm(&self, address: &Vec<u8>) -> (r: Option<usize>)
        ensures
            match r {
                Some(i) => i < self.proxy_storage().intermediated_farms.len()
                    && self.proxy_storage().intermediated_farms[i as int] == address@,
                None => !self.proxy_storage().intermediated_farms.contains(address@),
            },
    {
        let mut i: usize = 0;
        while i < self.intermediated_farms.len()
            invariant
                i <= self.intermediated_farms.len(),
                forall|j: int| 0 <= j < i ==> (#[trigger] self.intermediated_farms@[j])@ != address@,
            decreases self.intermediated_farms.len() - i,
        {
            if bytes_eq(&self.intermediated_farms[i], address) {
                return Some(i);
            }
            i = i + 1;
        }
        proof {
            let fv = bytes_seq_view(self.intermediated_farms@);
            if fv.contains(address@) {
                let j = choose|j: int| 0 <= j < fv.len() && fv[j] == address@;
                assert(fv[j] == self.intermediated_farms@[j]@);
            }
        }
        None
    }
}

impl TokenSendModule for ProxyStorage {
    closed spec fn spec_transfer_exec_gas_limit(&self) -> u64 {
        self.transfer_exec_gas_limit
    }

    fn transfer_exec_gas_limit(&self) -> (gas: u64)
        ensures
            gas == self.proxy_storage().transfer_exec_gas_limit,
    {
        self.transfer_exec_gas_limit
    }
}

impl ProxyFarmModule for ProxyStorage {
    closed spec fn proxy_storage(&self) -> ProxyStorageView {
        self.view_storage()
    }

    fn intermediated_farms_contains(&self, address: &Vec<u8>) -> (r: bool) {
        self.find_farm(address).is_some()
    }

    fn intermediated_farms_insert(&mut self, address: Vec<u8>) {
        proof {
            use_type_invariant(&*self);
        }
        if self.find_farm(&address).is_none() {
            let ghost old_farms = bytes_seq_view(self.intermediated_farms@);
            let ghost added = address@;
            let mut farms = Vec::new();
            std::mem::swap(&mut farms, &mut self.intermediated_farms);
            farms.push(address);
            assert(bytes_seq_view(farms@) =~= old_farms.push(added));
            self.intermediated_farms = farms;
        }
    }

    fn intermediated_farms_remove(&mut self, address: &Vec<u8>) {
        proof {
            use_type_invariant(&*self);
        }
        match self.find_farm(address) {
            None => {},
            Some(i) => {
                let ghost old_farms = bytes_seq_view(self.intermediated_farms@);
                proof {
                    let k = old_farms.index_of(address@);
                    assert(old_farms[i as int] == address@);
                    assert(0 <= k < old_farms.len() && old_farms[k] == address@);
                    assert(k == i);
                }
                let mut farms = Vec::new();
                std::mem::swap(&mut farms, &mut self.intermediated_farms);
                farms.remove(i);
                assert(bytes_seq_view(farms@) =~= old_farms.remove(i as int));
                self.intermediated_farms = farms;
            },
        }
    }

    fn wrapped_farm_token_id(&self) -> (t: &Vec<u8>) {
        &self.wrapped_farm_token_id
    }

    fn wrapped_lp_token_id(&self) -> (t: &Vec<u8>) {
        &self.wrapped_lp_token_id
    }

    fn locked_asset_token_id(&self) -> (t: &Vec<u8>) {
        &self.locked_asset_token_id
    }

    fn asset_token_id(&self) -> (t: &Vec<u8>) {
        &self.asset_token_id
    }
}

} // verus!
