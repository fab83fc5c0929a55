//! The state diff that a blob carries.

use vstd::prelude::*;
use crate::arith::radix_digits;
use crate::felt::Felt;

verus! {

/// A storage cell and its new value.
#[derive(Debug, Clone)]
pub struct StorageUpdate {
    pub key: Felt,
    pub value: Felt,
}

/// A storage update with the numbers of its elements.
pub struct StorageUpdateView {
    pub key: nat,
    pub value: nat,
}

impl View for StorageUpdate {
    type V = StorageUpdateView;

    open spec fn view(&self) -> StorageUpdateView {
        StorageUpdateView { key: self.key@, value: self.value@ }
    }
}

/// The changes to one contract.
#[derive(Debug)]
pub struct ContractUpdate {
    pub address: Felt,
    pub nonce: u64,
    /// Present only if the class was updated.
    pub new_class_hash: Option<Felt>,
    pub storage_updates: Vec<StorageUpdate>,
}

/// A contract update with the numbers of its elements.
pub struct ContractUpdateView {
    pub address: nat,
    pub nonce: u64,
    pub new_class_hash: Option<nat>,
    pub storage_updates: Seq<StorageUpdateView>,
}

/// The storage updates with the numbers of their elements.
pub open spec fn storage_views(s: Seq<StorageUpdate>) -> Seq<StorageUpdateView> {
    Seq::new(s.len(), |i: int| s[i]@)
}

/// The number of an element that may be missing.
pub open spec fn option_value(f: Option<Felt>) -> Option<nat> {
    match f {
        Some(f) => Some(f@),
        None => None,
    }
}

impl View for ContractUpdate {
    type V = ContractUpdateView;

    open spec fn view(&self) -> ContractUpdateView {
        ContractUpdateView {
            address: self.address@,
            nonce: self.nonce,
            new_class_hash: option_value(self.new_class_hash),
            storage_updates: storage_views(self.storage_updates@),
        }
    }
}

/// A class and what it compiles to.
#[derive(Debug, Clone)]
pub struct ClassDeclaration {
    pub class_hash: Felt,
    pub compiled_class_hash: Felt,
}

/// A class declaration with the numbers of its elements.
pub struct ClassDeclarationView {
    pub class_hash: nat,
    pub compiled_class_hash: nat,
}

impl View for ClassDeclaration {
    type V = ClassDeclarationView;

    open spec fn view(&self) -> ClassDeclarationView {
        ClassDeclarationView {
            class_hash: self.class_hash@,
            compiled_class_hash: self.compiled_class_hash@,
        }
    }
}

/// The lowest and the highest block sequence number seen on the contract
/// that records them.
#[derive(Debug, Clone, Copy, PartialEq, Eq, Structural)]
pub struct BlockRange {
    pub min_seq_no: Option<u64>,
    pub max_seq_no: Option<u64>,
}

impl BlockRange {
    /// The range that has seen nothing.
    pub fn new() -> (r: BlockRange)
        ensures
            r == (BlockRange { min_seq_no: None, max_seq_no: None }),
    {
        BlockRange { min_seq_no: None, max_seq_no: None }
    }

    /// The range widened to hold a sequence number.
    pub open spec fn spec_with(self, seq_no: u64) -> BlockRange {
        BlockRange {
            min_seq_no: match self.min_seq_no {
                Some(old) => if seq_no < old {
                    Some(seq_no)
                } else {
                    Some(old)
                },
                None => Some(seq_no),
            },
            max_seq_no: match self.max_seq_no {
                Some(old) => if seq_no > old {
                    Some(seq_no)
                } else {
                    Some(old)
                },
                None => Some(seq_no),
            },
        }
    }

    /// Widens the range to hold a sequence number.
    pub fn observe(&mut self, seq_no: u64)
        ensures
            *final(self) == old(self).spec_with(seq_no),
    {
        match self.min_seq_no {
            Some(old) => {
                if seq_no < old {
                    self.min_seq_no = Some(seq_no);
                }
            },
            None => {
                self.min_seq_no = Some(seq_no);
            },
        }
        match self.max_seq_no {
            Some(old) => {
                if seq_no > old {
                    self.max_seq_no = Some(seq_no);
                }
            },
            None => {
                self.max_seq_no = Some(seq_no);
            },
        }
    }
}

/// What a blob says of the state.
#[derive(Debug)]
pub struct StateDiff {
    pub contract_updates: Vec<ContractUpdate>,
    pub class_declarations: Vec<ClassDeclaration>,
    pub range: BlockRange,
    /// The number of zero elements after the payload.
    pub tail_size: usize,
}

/// A state diff with the numbers of its elements.
pub struct StateDiffView {
    pub contract_updates: Seq<ContractUpdateView>,
    pub class_declarations: Seq<ClassDeclarationView>,
    pub range: BlockRange,
    pub tail_size: nat,
}

/// The contract updates with the numbers of their elements.
pub open spec fn contract_views(s: Seq<ContractUpdate>) -> Seq<ContractUpdateView> {
    Seq::new(s.len(), |i: int| s[i]@)
}

/// The class declarations with the numbers of their elements.
pub open spec fn declaration_views(s: Seq<ClassDeclaration>) -> Seq<ClassDeclarationView> {
    Seq::new(s.len(), |i: int| s[i]@)
}

impl View for StateDiff {
    type V = StateDiffView;

    open spec fn view(&self) -> StateDiffView {
        StateDiffView {
            contract_updates: contract_views(self.contract_updates@),
            class_declarations: declaration_views(self.class_declarations@),
            range: self.range,
            tail_size: self.tail_size as nat,
        }
    }
}

/// A number as the projection writes it: its hexadecimal digits behind
/// `0x`.
pub open spec fn hex(n: nat) -> Seq<char> {
    seq!['0', 'x'] + radix_digits(n, 16)
}

/// A storage update in the projection.
#[derive(Debug)]
pub struct StorageEntryItem {
    pub key: String,
    pub value: String,
}

/// A storage entry of the projection as text.
pub struct StorageEntryItemView {
    pub key: Seq<char>,
    pub value: Seq<char>,
}

impl View for StorageEntryItem {
    type V = StorageEntryItemView;

    open spec fn view(&self) -> StorageEntryItemView {
        StorageEntryItemView { key: self.key@, value: self.value@ }
    }
}

/// The storage updates of a contract in the projection.
#[derive(Debug)]
pub struct ContractStorageDiffItem {
    pub address: String,
    pub storage_entries: Vec<StorageEntryItem>,
}

/// The storage updates of a contract in the projection as text.
pub struct ContractStorageDiffItemView {
    pub address: Seq<char>,
    pub storage_entries: Seq<StorageEntryItemView>,
}

/// The storage entries as text.
pub open spec fn entry_views(s: Seq<StorageEntryItem>) -> Seq<StorageEntryItemView> {
    Seq::new(s.len(), |i: int| s[i]@)
}

impl View for ContractStorageDiffItem {
    type V = ContractStorageDiffItemView;

    open spec fn view(&self) -> ContractStorageDiffItemView {
        ContractStorageDiffItemView {
            address: self.address@,
            storage_entries: entry_views(self.storage_entries@),
        }
    }
}

/// The class of a contract in the projection.
#[derive(Debug)]
pub struct DeployedContractItem {
    pub address: String,
    pub class_hash: Option<String>,
}

/// The class of a contract in the projection as text.
pub struct DeployedContractItemView {
    pub address: Seq<char>,
    pub class_hash: Option<Seq<char>>,
}

impl View for DeployedContractItem {
    type V = DeployedContractItemView;

    open spec fn view(&self) -> DeployedContractItemView {
        DeployedContractItemView {
            address: self.address@,
            class_hash: match self.class_hash {
                Some(h) => Some(h@),
                None => None,
            },
        }
    }
}

/// The nonce of a contract in the projection.
#[derive(Debug)]
pub struct NonceItem {
    pub contract_address: String,
    pub nonce: String,
}

/// The nonce of a contract in the projection as text.
pub struct NonceItemView {
    pub contract_address: Seq<char>,
    pub nonce: Seq<char>,
}

impl View for NonceItem {
    type V = NonceItemView;

    open spec fn view(&self) -> NonceItemView {
        NonceItemView { contract_address: self.contract_address@, nonce: self.nonce@ }
    }
}

/// A class declaration in the projection.
#[derive(Debug)]
pub struct DeclaredClassItem {
    pub class_hash: String,
    pub compiled_class_hash: String,
}

/// A class declaration of the projection as text.
pub struct DeclaredClassItemView {
    pub class_hash: Seq<char>,
    pub compiled_class_hash: Seq<char>,
}

impl View for DeclaredClassItem {
    type V = DeclaredClassItemView;

    open spec fn view(&self) -> DeclaredClassItemView {
        DeclaredClassItemView {
            class_hash: self.class_hash@,
            compiled_class_hash: self.compiled_class_hash@,
        }
    }
}

/// The projection of a state diff, with every number written in
/// hexadecimal.
#[derive(Debug)]
pub struct JsonStateDiff {
    pub storage_diffs: Vec<ContractStorageDiffItem>,
    pub declared_classes: Vec<DeclaredClassItem>,
    pub deployed_or_replaced: Vec<DeployedContractItem>,
    pub nonces: Vec<NonceItem>,
}

/// The projection of a state diff as text.
pub struct JsonStateDiffView {
    pub storage_diffs: Seq<ContractStorageDiffItemView>,
    pub declared_classes: Seq<DeclaredClassItemView>,
    pub deployed_or_replaced: Seq<DeployedContractItemView>,
    pub nonces: Seq<NonceItemView>,
}

/// The storage diffs as text.
pub open spec fn storage_diff_views(s: Seq<ContractStorageDiffItem>) -> Seq<
    ContractStorageDiffItemView,
> {
    Seq::new(s.len(), |i: int| s[i]@)
}

/// The declared classes as text.
pub open spec fn declared_views(s: Seq<DeclaredClassItem>) -> Seq<DeclaredClassItemView> {
    Seq::new(s.len(), |i: int| s[i]@)
}

/// The classes of the contracts as text.
pub open spec fn deployed_views(s: Seq<DeployedContractItem>) -> Seq<DeployedContractItemView> {
    Seq::new(s.len(), |i: int| s[i]@)
}

/// The nonces as text.
pub open spec fn nonce_views(s: Seq<NonceItem>) -> Seq<NonceItemView> {
    Seq::new(s.len(), |i: int| s[i]@)
}

impl View for JsonStateDiff {
    type V = JsonStateDiffView;

    open spec fn view(&self) -> JsonStateDiffView {
        JsonStateDiffView {
            storage_diffs: storage_diff_views(self.storage_diffs@),
            declared_classes: declared_views(self.declared_classes@),
            deployed_or_replaced: deployed_views(self.deployed_or_replaced@),
            nonces: nonce_views(self.nonces@),
        }
    }
}

impl StorageUpdateView {
    /// The storage update as the projection writes it.
    pub open spec fn spec_item(self) -> StorageEntryItemView {
        StorageEntryItemView { key: hex(self.key), value: hex(self.value) }
    }
}

impl ClassDeclarationView {
    /// The class declaration as the projection writes it.
    pub open spec fn spec_item(self) -> DeclaredClassItemView {
        DeclaredClassItemView {
            class_hash: hex(self.class_hash),
            compiled_class_hash: hex(self.compiled_class_hash),
        }
    }
}

impl ContractUpdateView {
    /// The address of the contract with its storage updates.
    pub open spec fn spec_storage_diff_item(self) -> ContractStorageDiffItemView {
        ContractStorageDiffItemView {
            address: hex(self.address),
            storage_entries: Seq::new(
                self.storage_updates.len(),
                |i: int| self.storage_updates[i].spec_item(),
            ),
        }
    }

    /// The address of the contract with its new class, if it has one.
    pub open spec fn spec_deployed_contract_item(self) -> DeployedContractItemView {
        DeployedContractItemView {
            address: hex(self.address),
            class_hash: match self.new_class_hash {
                Some(h) => Some(hex(h)),
                None => None,
            },
        }
    }

    /// The address of the contract with its nonce.
    pub open spec fn spec_nonce_item(self) -> NonceItemView {
        NonceItemView { contract_address: hex(self.address), nonce: hex(self.nonce as nat) }
    }
}

/// The storage diffs of the contracts that have storage updates.
pub open spec fn spec_storage_diffs(updates: Seq<ContractUpdateView>) -> Seq<
    ContractStorageDiffItemView,
>
    decreases updates.len(),
{
    if updates.len() == 0 {
        Seq::empty()
    } else {
        let before = spec_storage_diffs(updates.drop_last());
        if updates.last().storage_updates.len() > 0 {
            before.push(updates.last().spec_storage_diff_item())
        } else {
            before
        }
    }
}

/// The classes of the contracts whose class was updated.
pub open spec fn spec_deployed(updates: Seq<ContractUpdateView>) -> Seq<DeployedContractItemView>
    decreases updates.len(),
{
    if updates.len() == 0 {
        Seq::empty()
    } else {
        let before = spec_deployed(updates.drop_last());
        if updates.last().new_class_hash is Some {
            before.push(updates.last().spec_deployed_contract_item())
        } else {
            before
        }
    }
}

/// The nonces of the contracts whose nonce is not zero.
pub open spec fn spec_nonces(updates: Seq<ContractUpdateView>) -> Seq<NonceItemView>
    decreases updates.len(),
{
    if updates.len() == 0 {
        Seq::empty()
    } else {
        let before = spec_nonces(updates.drop_last());
        if updates.last().nonce != 0 {
            before.push(updates.last().spec_nonce_item())
        } else {
            before
        }
    }
}

impl StateDiffView {
    /// The projection of the state diff.
    pub open spec fn spec_json(self) -> JsonStateDiffView {
        JsonStateDiffView {
            storage_diffs: spec_storage_diffs(self.contract_updates),
            declared_classes: Seq::new(
                self.class_declarations.len(),
                |i: int| self.class_declarations[i].spec_item(),
            ),
            deployed_or_replaced: spec_deployed(self.contract_updates),
            nonces: spec_nonces(self.contract_updates),
        }
    }
}

impl StorageUpdate {
    /// The storage update as the projection writes it.
    pub fn to_item(&self) -> (r: StorageEntryItem)
        ensures
            r@ == self@.spec_item(),
    {
        StorageEntryItem { key: self.key.to_hex(), value: self.value.to_hex() }
    }
}

impl ClassDeclaration {
    /// The class declaration as the projection writes it.
    pub fn to_item(&self) -> (r: DeclaredClassItem)
        ensures
            r@ == self@.spec_item(),
    {
        DeclaredClassItem {
            class_hash: self.class_hash.to_hex(),
            compiled_class_hash: self.compiled_class_hash.to_hex(),
        }
    }
}

impl ContractUpdate {
    /// The address of the contract with its storage updates.
    pub fn to_contract_storage_diff_item(&self) -> (r: ContractStorageDiffItem)
        ensures
            r@ == self@.spec_storage_diff_item(),
    {
        let mut storage_entries: Vec<StorageEntryItem> = Vec::new();
        let mut i: usize = 0;
        while i < self.storage_updates.len()
            invariant
                i <= self.storage_updates@.len(),
                storage_entries@.len() == i,
                forall|j: int|
                    0 <= j < i ==> (#[trigger] storage_entries@[j])@
                        == self.storage_updates@[j]@.spec_item(),
            decreases self.storage_updates@.len() - i,
        {
            storage_entries.push(self.storage_updates[i].to_item());
            i = i + 1;
        }
        assert(entry_views(storage_entries@) =~= self@.spec_storage_diff_item().storage_entries);
        ContractStorageDiffItem { address: self.address.to_hex(), storage_entries }
    }

    /// The address of the contract with its new class, if it has one.
    pub fn to_deployed_contract_item(&self) -> (r: DeployedContractItem)
        ensures
            r@ == self@.spec_deployed_contract_item(),
    {
        let class_hash = match &self.new_class_hash {
            Some(h) => Some(h.to_hex()),
            None => None,
        };
        DeployedContractItem { address: self.address.to_hex(), class_hash }
    }

    /// The address of the contract with its nonce.
    pub fn to_nonce_item(&self) -> (r: NonceItem)
        ensures
            r@ == self@.spec_nonce_item(),
    {
        let n = Felt::from_u64(self.nonce);
        NonceItem { contract_address: self.address.to_hex(), nonce: n.to_hex() }
    }
}

impl StateDiff {
    /// The projection of the state diff: the storage of the contracts that
    /// have storage updates, the declared classes, the class of the
    /// contracts whose class was updated, and the nonces that are not zero.
    pub fn to_json_state_diff(&self) -> (r: JsonStateDiff)
        ensures
            r@ == self@.spec_json(),
    {
        let mut storage_diffs: Vec<ContractStorageDiffItem> = Vec::new();
        let mut deployed_contracts: Vec<DeployedContractItem> = Vec::new();
        let mut nonces: Vec<NonceItem> = Vec::new();
        let ghost updates = contract_views(self.contract_updates@);
        let mut i: usize = 0;
        assert(updates.take(0) =~= Seq::empty());
        assert(storage_diff_views(storage_diffs@) =~= Seq::empty());
        assert(deployed_views(deployed_contracts@) =~= Seq::empty());
        assert(nonce_views(nonces@) =~= Seq::empty());
        while i < self.contract_updates.len()
            invariant
                i <= self.contract_updates@.len(),
                updates == contract_views(self.contract_updates@),
                storage_diff_views(storage_diffs@) == spec_storage_diffs(updates.take(i as int)),
                deployed_views(deployed_contracts@) == spec_deployed(updates.take(i as int)),
                nonce_views(nonces@) == spec_nonces(updates.take(i as int)),
            decreases self.contract_updates@.len() - i,
        {
            let cu = &self.contract_updates[i];
            proof {
                assert(updates.take(i + 1).drop_last() =~= updates.take(i as int));
                assert(updates.take(i + 1).last() == cu@);
            }
            if cu.storage_updates.len() > 0 {
                let ghost before = storage_diff_views(storage_diffs@);
                let item = cu.to_contract_storage_diff_item();
                storage_diffs.push(item);
                assert(storage_diff_views(storage_diffs@) =~= before.push(item@));
            }
            if cu.new_class_hash.is_some() {
                let ghost before = deployed_views(deployed_contracts@);
                let item = cu.to_deployed_contract_item();
                deployed_contracts.push(item);
                assert(deployed_views(deployed_contracts@) =~= before.push(item@));
            }
            if cu.nonce != 0 {
                let ghost before = nonce_views(nonces@);
                let item = cu.to_nonce_item();
                nonces.push(item);
                assert(nonce_views(nonces@) =~= before.push(item@));
            }
            i = i + 1;
        }
        assert(updates.take(i as int) =~= updates);
        let mut declared_classes: Vec<DeclaredClassItem> = Vec::new();
        let mut k: usize = 0;
        while k < self.class_declarations.len()
            invariant
                k <= self.class_declarations@.len(),
                declared_classes@.len() == k,
                forall|j: int|
                    0 <= j < k ==> (#[trigger] declared_classes@[j])@
                        == self.class_declarations@[j]@.spec_item(),
            decreases self.class_declarations@.len() - k,
        {
            declared_classes.push(self.class_declarations[k].to_item());
            k = k + 1;
        }
        assert(declared_views(declared_classes@) =~= self@.spec_json().declared_classes);
        JsonStateDiff {
            storage_diffs,
            declared_classes,
            deployed_or_replaced: deployed_contracts,
            nonces,
        }
    }
}

} // verus!
