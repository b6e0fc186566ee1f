//! Finds the cell dep of a script.
use vstd::prelude::*;

use crate::bytes::{concat_text, decimal_text, same_array};
use crate::table::Table;
use crate::types::{
    CellDep, CellOutput, CellOutputModel, DepType, OutPoint, Script, ScriptHashType, ScriptId,
    ScriptModel, DAO_OUTPUT_LOC, DAO_TYPE_HASH, MULTISIG_GROUP_OUTPUT_LOC, MULTISIG_OUTPUT_LOC,
    MULTISIG_TYPE_HASH, SIGHASH_GROUP_OUTPUT_LOC, SIGHASH_OUTPUT_LOC, SIGHASH_TYPE_HASH,
};
use crate::views::{calc_data_hash, calc_script_hash};

verus! {

/// Why a genesis block does not tell where the system scripts are.
#[derive(Debug, PartialEq, Eq)]
pub enum ParseGenesisInfoError {
    /// The block is not the first one; its number.
    InvalidBlockNumber(u64),
    /// A system script's data is missing; which one.
    DataHashNotFound(String),
    /// A system script's cell, or its type script, is missing; which one.
    TypeHashNotFound(String),
}

impl ParseGenesisInfoError {
    /// The text of the error.
    pub open spec fn text(self) -> Seq<char> {
        match self {
            ParseGenesisInfoError::InvalidBlockNumber(number) =>
                "invalid block number, expected: 0, got: `"@ + crate::bytes::decimal(number as nat) + "`"@,
            ParseGenesisInfoError::DataHashNotFound(what) => "data not found: `"@ + what@ + "`"@,
            ParseGenesisInfoError::TypeHashNotFound(what) => "type not found: `"@ + what@ + "`"@,
        }
    }

    /// The text of the error.
    pub fn message(&self) -> (text: String)
        ensures
            text@ == self.text(),
    {
        let open = match self {
            ParseGenesisInfoError::InvalidBlockNumber(number) => {
                let digits = decimal_text(*number);
                concat_text("invalid block number, expected: 0, got: `", digits.as_str())
            },
            ParseGenesisInfoError::DataHashNotFound(what) => concat_text(
                "data not found: `",
                what.as_str(),
            ),
            ParseGenesisInfoError::TypeHashNotFound(what) => concat_text(
                "type not found: `",
                what.as_str(),
            ),
        };
        concat_text(open.as_str(), "`")
    }
}

/// A script that every chain has from its genesis block on.
#[derive(Clone, Copy, PartialEq, Eq, Structural, Debug)]
pub enum SystemScript {
    Sighash,
    Multisig,
    Dao,
}

impl SystemScript {
    /// Where the script's code stands in the genesis block.
    pub open spec fn loc(self) -> (usize, usize) {
        match self {
            SystemScript::Sighash => SIGHASH_OUTPUT_LOC,
            SystemScript::Multisig => MULTISIG_OUTPUT_LOC,
            SystemScript::Dao => DAO_OUTPUT_LOC,
        }
    }
}

/// The hashes that the code of the system scripts should have.
#[derive(Clone, Copy, Debug, PartialEq, Eq)]
pub struct CodeHashes {
    pub sighash: [u8; 32],
    pub multisig: [u8; 32],
    pub dao: [u8; 32],
}

impl CodeHashes {
    /// The hash that the code of a script should have.
    pub open spec fn of(self, script: SystemScript) -> [u8; 32] {
        match script {
            SystemScript::Sighash => self.sighash,
            SystemScript::Multisig => self.multisig,
            SystemScript::Dao => self.dao,
        }
    }
}

/// A system script whose code is not what it should be.
#[derive(Clone, Copy, Debug, PartialEq, Eq)]
pub struct CodeHashMismatch {
    pub script: SystemScript,
    pub found: [u8; 32],
    pub expected: [u8; 32],
}

impl CodeHashMismatch {
    /// The mismatch of the code hash that was found, if any was, with the one expected.
    pub open spec fn spec_between(
        script: SystemScript,
        found: Option<[u8; 32]>,
        expected: [u8; 32],
    ) -> Option<CodeHashMismatch> {
        match found {
            Some(found) => if found == expected {
                None
            } else {
                Some(CodeHashMismatch { script, found, expected })
            },
            None => None,
        }
    }

    /// The mismatch of the code hash that was found, if any was, with the one expected.
    pub fn between(script: SystemScript, found: Option<[u8; 32]>, expected: [u8; 32]) -> (mismatch:
        Option<CodeHashMismatch>)
        ensures
            mismatch == CodeHashMismatch::spec_between(script, found, expected),
    {
        match found {
            Some(found) => if same_array(&found, &expected) {
                None
            } else {
                Some(CodeHashMismatch { script, found, expected })
            },
            None => None,
        }
    }
}

/// A list with one more item, if there is one.
pub open spec fn push_option<A>(list: Seq<A>, item: Option<A>) -> Seq<A> {
    match item {
        Some(item) => list.push(item),
        None => list,
    }
}

/// A transaction of the genesis block.
#[derive(Debug, PartialEq, Eq)]
pub struct GenesisTransaction {
    pub hash: [u8; 32],
    pub outputs: Vec<CellOutput>,
    pub outputs_data: Vec<Vec<u8>>,
}

/// What a [`GenesisTransaction`] holds.
pub struct GenesisTransactionModel {
    pub hash: [u8; 32],
    pub outputs: Seq<CellOutputModel>,
    pub outputs_data: Seq<Seq<u8>>,
}

impl View for GenesisTransaction {
    type V = GenesisTransactionModel;

    open spec fn view(&self) -> GenesisTransactionModel {
        GenesisTransactionModel {
            hash: self.hash,
            outputs: self.outputs@.map_values(|output: CellOutput| output@),
            outputs_data: self.outputs_data@.map_values(|data: Vec<u8>| data@),
        }
    }
}

impl GenesisTransactionModel {
    /// The number of cells that the transaction makes: outputs that have their data.
    pub open spec fn cell_count(self) -> nat {
        if self.outputs.len() <= self.outputs_data.len() {
            self.outputs.len()
        } else {
            self.outputs_data.len()
        }
    }
}

impl GenesisTransaction {
    /// The number of cells that the transaction makes: outputs that have their data.
    pub fn cell_count(&self) -> (count: usize)
        ensures
            count == self@.cell_count(),
    {
        if self.outputs.len() <= self.outputs_data.len() {
            self.outputs.len()
        } else {
            self.outputs_data.len()
        }
    }
}

/// The first block of a chain.
#[derive(Debug, PartialEq, Eq)]
pub struct GenesisBlock {
    pub number: u64,
    pub transactions: Vec<GenesisTransaction>,
}

/// What a [`GenesisBlock`] holds.
pub struct GenesisBlockModel {
    pub number: u64,
    pub transactions: Seq<GenesisTransactionModel>,
}

impl View for GenesisBlock {
    type V = GenesisBlockModel;

    open spec fn view(&self) -> GenesisBlockModel {
        GenesisBlockModel {
            number: self.number,
            transactions: self.transactions@.map_values(|tx: GenesisTransaction| tx@),
        }
    }
}

impl GenesisBlockModel {
    /// The block has a cell at this transaction and output.
    pub open spec fn has_cell(self, loc: (usize, usize)) -> bool {
        loc.0 < self.transactions.len() && loc.1 < self.transactions[loc.0 as int].cell_count()
    }

    /// The block has a cell with a type script at this transaction and output.
    pub open spec fn has_type_script(self, loc: (usize, usize)) -> bool {
        self.has_cell(loc) && self.transactions[loc.0 as int].outputs[loc.1 as int].type_ is Some
    }

    /// The hash of the type script of the cell at this transaction and output, where there is
    /// such a cell and it has a type script.
    pub open spec fn type_hash_at(self, loc: (usize, usize)) -> Option<[u8; 32]> {
        if self.has_cell(loc) {
            match self.transactions[loc.0 as int].outputs[loc.1 as int].type_ {
                Some(script) => Some(
                    hash_array(
                        crate::views::script_hash_of(
                            script.code_hash@,
                            script.hash_type,
                            script.args,
                        ),
                    ),
                ),
                None => None,
            }
        } else {
            None
        }
    }

    /// The type hash at this place, where there is one, has the bytes of the script's hash.
    pub open spec fn type_hash_has_its_bytes(self, loc: (usize, usize)) -> bool {
        self.type_hash_at(loc) matches Some(hash) ==> {
            let script = self.transactions[loc.0 as int].outputs[loc.1 as int].type_->0;
            hash@ == crate::views::script_hash_of(script.code_hash@, script.hash_type, script.args)
        }
    }

    /// The code hash at this place, where there is one, has the bytes of the data's hash.
    pub open spec fn code_hash_has_its_bytes(self, loc: (usize, usize)) -> bool {
        self.code_hash_at(loc) matches Some(hash) ==> hash@ == crate::views::data_hash_of(
            self.transactions[loc.0 as int].outputs_data[loc.1 as int],
        )
    }

    /// The hash of the data of the cell at this transaction and output, where there is such a
    /// cell.
    pub open spec fn code_hash_at(self, loc: (usize, usize)) -> Option<[u8; 32]> {
        if self.has_cell(loc) {
            Some(
                hash_array(
                    crate::views::data_hash_of(
                        self.transactions[loc.0 as int].outputs_data[loc.1 as int],
                    ),
                ),
            )
        } else {
            None
        }
    }

    /// The mismatch of a script's code, if there is any.
    pub open spec fn mismatch(self, expected: CodeHashes, script: SystemScript) -> Option<
        CodeHashMismatch,
    > {
        CodeHashMismatch::spec_between(script, self.code_hash_at(script.loc()), expected.of(script))
    }

    /// The system scripts whose code is not what it should be, in the order in which their cells
    /// stand in the block. A block that is not the first one is not looked into.
    pub open spec fn code_hash_mismatches(self, expected: CodeHashes) -> Seq<CodeHashMismatch> {
        if self.number == 0 {
            push_option(
                push_option(
                    push_option(Seq::empty(), self.mismatch(expected, SystemScript::Sighash)),
                    self.mismatch(expected, SystemScript::Dao),
                ),
                self.mismatch(expected, SystemScript::Multisig),
            )
        } else {
            Seq::empty()
        }
    }

    /// The dep on the cell at this transaction and output.
    pub open spec fn dep_at(self, loc: (usize, usize), dep_type: DepType) -> CellDep {
        CellDep {
            out_point: OutPoint {
                tx_hash: self.transactions[loc.0 as int].hash,
                index: loc.1 as u32,
            },
            dep_type,
        }
    }

    /// The deps of the three system scripts, by the hashes of their type scripts.
    pub open spec fn system_items(
        self,
        sighash_type_hash: [u8; 32],
        multisig_type_hash: [u8; 32],
        dao_type_hash: [u8; 32],
    ) -> Map<ScriptId, (CellDep, Seq<char>)> {
        Map::<ScriptId, (CellDep, Seq<char>)>::empty().insert(
            ScriptId::of_type(sighash_type_hash),
            (
                self.dep_at(SIGHASH_GROUP_OUTPUT_LOC, DepType::DepGroup),
                "Secp256k1 blake160 sighash all"@,
            ),
        ).insert(
            ScriptId::of_type(multisig_type_hash),
            (
                self.dep_at(MULTISIG_GROUP_OUTPUT_LOC, DepType::DepGroup),
                "Secp256k1 blake160 multisig all"@,
            ),
        ).insert(
            ScriptId::of_type(dao_type_hash),
            (self.dep_at(DAO_OUTPUT_LOC, DepType::Code), "Nervos DAO"@),
        )
    }
}

/// The array of a hash's bytes.
pub open spec fn hash_array(bytes: Seq<u8>) -> [u8; 32] {
    choose|array: [u8; 32]| array@ == bytes
}

proof fn lemma_hash_array(array: [u8; 32])
    ensures
        hash_array(array@) == array,
{
    crate::bytes::lemma_same_array(hash_array(array@), array);
}

impl GenesisBlock {
    /// Tells whether the block has a cell at this transaction and output.
    pub fn has_cell(&self, loc: (usize, usize)) -> (found: bool)
        ensures
            found == self@.has_cell(loc),
    {
        loc.0 < self.transactions.len() && loc.1 < self.transactions[loc.0].cell_count()
    }

    /// The hash of the type script of the cell at this transaction and output, where there is
    /// such a cell and it has a type script.
    pub fn type_hash_at(&self, loc: (usize, usize)) -> (hash: Option<[u8; 32]>)
        ensures
            hash == self@.type_hash_at(loc),
            self@.type_hash_has_its_bytes(loc),
            hash is Some <==> self@.has_type_script(loc),
            hash matches Some(hash) ==> {
                let script = self.transactions@[loc.0 as int].outputs@[loc.1 as int].type_->0;
                hash@ == crate::views::script_hash_of(
                    script.code_hash@,
                    script.hash_type,
                    script.args@,
                )
            },
    {
        if !self.has_cell(loc) {
            return None;
        }
        let output = &self.transactions[loc.0].outputs[loc.1];
        assert(self@.transactions[loc.0 as int].outputs[loc.1 as int] == output@);
        match &output.type_ {
            Some(script) => {
                let hash = calc_script_hash(script);
                proof {
                    lemma_hash_array(hash);
                }
                Some(hash)
            },
            None => None,
        }
    }

    /// The hash of the data of the cell at this transaction and output, where there is such a
    /// cell.
    pub fn code_hash_at(&self, loc: (usize, usize)) -> (hash: Option<[u8; 32]>)
        ensures
            hash == self@.code_hash_at(loc),
            self@.code_hash_has_its_bytes(loc),
            hash is Some <==> self@.has_cell(loc),
            hash matches Some(hash) ==> hash@ == crate::views::data_hash_of(
                self.transactions@[loc.0 as int].outputs_data@[loc.1 as int]@,
            ),
    {
        if !self.has_cell(loc) {
            return None;
        }
        let data = &self.transactions[loc.0].outputs_data[loc.1];
        assert(self@.transactions[loc.0 as int].outputs_data[loc.1 as int] == data@);
        let hash = calc_data_hash(data.as_slice());
        proof {
            lemma_hash_array(hash);
        }
        Some(hash)
    }

    /// The system scripts whose code is not what it should be, in the order in which their cells
    /// stand in the block. A block that is not the first one is not looked into.
    pub fn code_hash_mismatches(&self, expected: &CodeHashes) -> (mismatches: Vec<CodeHashMismatch>)
        ensures
            mismatches@ == self@.code_hash_mismatches(*expected),
            self@.number == 0 ==> {
                &&& self@.code_hash_has_its_bytes(SIGHASH_OUTPUT_LOC)
                &&& self@.code_hash_has_its_bytes(DAO_OUTPUT_LOC)
                &&& self@.code_hash_has_its_bytes(MULTISIG_OUTPUT_LOC)
            },
    {
        let mut mismatches: Vec<CodeHashMismatch> = Vec::new();
        if self.number != 0 {
            return mismatches;
        }
        if let Some(mismatch) = CodeHashMismatch::between(
            SystemScript::Sighash,
            self.code_hash_at(SIGHASH_OUTPUT_LOC),
            expected.sighash,
        ) {
            mismatches.push(mismatch);
        }
        if let Some(mismatch) = CodeHashMismatch::between(
            SystemScript::Dao,
            self.code_hash_at(DAO_OUTPUT_LOC),
            expected.dao,
        ) {
            mismatches.push(mismatch);
        }
        if let Some(mismatch) = CodeHashMismatch::between(
            SystemScript::Multisig,
            self.code_hash_at(MULTISIG_OUTPUT_LOC),
            expected.multisig,
        ) {
            mismatches.push(mismatch);
        }
        mismatches
    }

    /// The dep on the cell at this transaction and output.
    fn dep_at(&self, loc: (usize, usize), dep_type: DepType) -> (dep: CellDep)
        requires
            self@.has_cell(loc),
            loc.1 <= u32::MAX,
        ensures
            dep == self@.dep_at(loc, dep_type),
    {
        CellDep {
            out_point: OutPoint { tx_hash: self.transactions[loc.0].hash, index: loc.1 as u32 },
            dep_type,
        }
    }
}

/// What the values of a table of deps hold.
pub open spec fn items_model(items: Map<ScriptId, (CellDep, String)>) -> Map<
    ScriptId,
    (CellDep, Seq<char>),
> {
    items.map_values(|item: (CellDep, String)| (item.0, item.1@))
}

/// Deps by script, each with the script's name.
#[derive(Debug)]
pub struct OffchainCellDepResolver {
    pub items: Table<ScriptId, (CellDep, String)>,
}

impl View for OffchainCellDepResolver {
    type V = Map<ScriptId, (CellDep, Seq<char>)>;

    open spec fn view(&self) -> Map<ScriptId, (CellDep, Seq<char>)> {
        items_model(self.items@)
    }
}

impl OffchainCellDepResolver {
    /// No script stands twice.
    pub open spec fn wf(&self) -> bool {
        self.items.wf()
    }

    /// The dep of a script, found by its code hash and hash type.
    pub fn resolve(&self, script: &Script) -> (dep: Option<CellDep>)
        requires
            self.wf(),
            script@.hash_type <= 2,
        ensures
            dep == (if self@.dom().contains(ScriptId::named_by(script@)) {
                Some(self@[ScriptId::named_by(script@)].0)
            } else {
                None
            }),
    {
        let hash_type = match ScriptHashType::from_byte(script.hash_type) {
            Some(hash_type) => hash_type,
            None => {
                return None;
            },
        };
        let id = ScriptId { code_hash: script.code_hash, hash_type };
        assert(id == ScriptId::named_by(script@));
        match self.items.get(&id) {
            Some(item) => Some(item.0),
            None => None,
        }
    }
}

/// A resolver that knows the system scripts of a chain from its genesis block, and the deps that
/// were registered besides.
#[derive(Debug)]
pub struct DefaultCellDepResolver {
    offchain: OffchainCellDepResolver,
}

impl View for DefaultCellDepResolver {
    type V = Map<ScriptId, (CellDep, Seq<char>)>;

    closed spec fn view(&self) -> Map<ScriptId, (CellDep, Seq<char>)> {
        self.offchain@
    }
}

impl Clone for DefaultCellDepResolver {
    fn clone(&self) -> (copied: Self)
        ensures
            copied@ == self@,
            self.wf() ==> copied.wf(),
    {
        DefaultCellDepResolver {
            offchain: OffchainCellDepResolver { items: self.offchain.items.copy() },
        }
    }
}

/// The dep and the name that a table has for a script.
pub open spec fn item_of(
    items: Map<ScriptId, (CellDep, Seq<char>)>,
    script_id: ScriptId,
) -> Option<(CellDep, Seq<char>)> {
    if items.dom().contains(script_id) {
        Some(items[script_id])
    } else {
        None
    }
}

/// What a possibly absent item holds.
pub open spec fn item_model(item: Option<(CellDep, String)>) -> Option<(CellDep, Seq<char>)> {
    match item {
        Some(item) => Some((item.0, item.1@)),
        None => None,
    }
}

/// What a possibly absent borrowed item holds.
pub open spec fn item_ref_model(item: Option<&(CellDep, String)>) -> Option<
    (CellDep, Seq<char>),
> {
    match item {
        Some(item) => Some((item.0, item.1@)),
        None => None,
    }
}

impl DefaultCellDepResolver {
    /// No script stands twice.
    pub closed spec fn wf(&self) -> bool {
        self.offchain.wf()
    }

    /// Reads the places of the system scripts from a genesis block.
    pub fn from_genesis(genesis_block: &GenesisBlock) -> (result: Result<
        DefaultCellDepResolver,
        ParseGenesisInfoError,
    >)
        requires
            ({
                let block = genesis_block@;
                block.number == 0 && block.has_type_script(SIGHASH_OUTPUT_LOC)
                    && block.has_type_script(MULTISIG_OUTPUT_LOC) && block.has_type_script(
                    DAO_OUTPUT_LOC,
                ) ==> block.has_cell(SIGHASH_GROUP_OUTPUT_LOC) && block.has_cell(
                    MULTISIG_GROUP_OUTPUT_LOC,
                )
            }),
        ensures
            genesis_outcome(
                genesis_block@,
                genesis_block@.type_hash_at(SIGHASH_OUTPUT_LOC),
                genesis_block@.type_hash_at(MULTISIG_OUTPUT_LOC),
                genesis_block@.type_hash_at(DAO_OUTPUT_LOC),
                result,
            ),
            genesis_block@.number == 0 ==> {
                &&& genesis_block@.type_hash_has_its_bytes(SIGHASH_OUTPUT_LOC)
                &&& genesis_block@.type_hash_has_its_bytes(MULTISIG_OUTPUT_LOC)
                &&& genesis_block@.type_hash_has_its_bytes(DAO_OUTPUT_LOC)
            },
    {
        if genesis_block.number != 0 {
            return Err(ParseGenesisInfoError::InvalidBlockNumber(genesis_block.number));
        }
        let sighash_type_hash = genesis_block.type_hash_at(SIGHASH_OUTPUT_LOC);
        let multisig_type_hash = genesis_block.type_hash_at(MULTISIG_OUTPUT_LOC);
        let dao_type_hash = genesis_block.type_hash_at(DAO_OUTPUT_LOC);
        Self::from_type_hashes(genesis_block, sighash_type_hash, multisig_type_hash, dao_type_hash)
    }

    /// Registers the system scripts of a block under the hashes of their type scripts.
    pub fn from_type_hashes(
        genesis_block: &GenesisBlock,
        sighash_type_hash: Option<[u8; 32]>,
        multisig_type_hash: Option<[u8; 32]>,
        dao_type_hash: Option<[u8; 32]>,
    ) -> (result: Result<DefaultCellDepResolver, ParseGenesisInfoError>)
        requires
            genesis_block@.number == 0 && sighash_type_hash is Some && multisig_type_hash is Some
                && dao_type_hash is Some ==> genesis_block@.has_cell(SIGHASH_GROUP_OUTPUT_LOC)
                && genesis_block@.has_cell(MULTISIG_GROUP_OUTPUT_LOC) && genesis_block@.has_cell(
                DAO_OUTPUT_LOC,
            ),
        ensures
            genesis_outcome(
                genesis_block@,
                sighash_type_hash,
                multisig_type_hash,
                dao_type_hash,
                result,
            ),
    {
        if genesis_block.number != 0 {
            return Err(ParseGenesisInfoError::InvalidBlockNumber(genesis_block.number));
        }
        let sighash = match sighash_type_hash {
            Some(hash) => hash,
            None => {
                return Err(
                    ParseGenesisInfoError::TypeHashNotFound(
                        "No type hash(sighash) found in txs[0][1]".to_owned(),
                    ),
                );
            },
        };
        let multisig = match multisig_type_hash {
            Some(hash) => hash,
            None => {
                return Err(
                    ParseGenesisInfoError::TypeHashNotFound(
                        "No type hash(multisig) found in txs[0][4]".to_owned(),
                    ),
                );
            },
        };
        let dao = match dao_type_hash {
            Some(hash) => hash,
            None => {
                return Err(
                    ParseGenesisInfoError::TypeHashNotFound(
                        "No type hash(dao) found in txs[0][2]".to_owned(),
                    ),
                );
            },
        };
        let sighash_dep = genesis_block.dep_at(SIGHASH_GROUP_OUTPUT_LOC, DepType::DepGroup);
        let multisig_dep = genesis_block.dep_at(MULTISIG_GROUP_OUTPUT_LOC, DepType::DepGroup);
        let dao_dep = genesis_block.dep_at(DAO_OUTPUT_LOC, DepType::Code);

        let mut items: Table<ScriptId, (CellDep, String)> = Table::new();
        items.insert(
            ScriptId::new_type(sighash),
            (sighash_dep, "Secp256k1 blake160 sighash all".to_owned()),
        );
        items.insert(
            ScriptId::new_type(multisig),
            (multisig_dep, "Secp256k1 blake160 multisig all".to_owned()),
        );
        items.insert(ScriptId::new_type(dao), (dao_dep, "Nervos DAO".to_owned()));
        let resolver = DefaultCellDepResolver { offchain: OffchainCellDepResolver { items } };
        assert(resolver@ =~= genesis_block@.system_items(sighash, multisig, dao));
        Ok(resolver)
    }

    /// Registers the dep of a script and hands back what was registered before.
    pub fn insert(&mut self, script_id: ScriptId, cell_dep: CellDep, name: String) -> (previous:
        Option<(CellDep, String)>)
        requires
            old(self).wf(),
        ensures
            final(self).wf(),
            final(self)@ == old(self)@.insert(script_id, (cell_dep, name@)),
            item_model(previous) == item_of(old(self)@, script_id),
    {
        let previous = self.offchain.items.insert(script_id, (cell_dep, name));
        assert(self@ =~= old(self)@.insert(script_id, (cell_dep, name@)));
        previous
    }

    /// Forgets the dep of a script and hands it back.
    pub fn remove(&mut self, script_id: &ScriptId) -> (previous: Option<(CellDep, String)>)
        requires
            old(self).wf(),
        ensures
            final(self).wf(),
            final(self)@ == old(self)@.remove(*script_id),
            item_model(previous) == item_of(old(self)@, *script_id),
    {
        let previous = self.offchain.items.remove(script_id);
        assert(self@ =~= old(self)@.remove(*script_id));
        previous
    }

    /// Tells whether a script has a dep.
    pub fn contains(&self, script_id: &ScriptId) -> (found: bool)
        requires
            self.wf(),
        ensures
            found == self@.dom().contains(*script_id),
    {
        self.offchain.items.contains_key(script_id)
    }

    /// The dep of a script, and its name.
    pub fn get(&self, script_id: &ScriptId) -> (item: Option<&(CellDep, String)>)
        requires
            self.wf(),
        ensures
            item_ref_model(item) == item_of(self@, *script_id),
    {
        self.offchain.items.get(script_id)
    }

    /// The dep of the sighash script.
    pub fn sighash_dep(&self) -> (item: Option<&(CellDep, String)>)
        requires
            self.wf(),
        ensures
            item_ref_model(item) == item_of(self@, ScriptId::of_type(SIGHASH_TYPE_HASH)),
    {
        self.get(&ScriptId::new_type(SIGHASH_TYPE_HASH))
    }

    /// The dep of the multisig script.
    pub fn multisig_dep(&self) -> (item: Option<&(CellDep, String)>)
        requires
            self.wf(),
        ensures
            item_ref_model(item) == item_of(self@, ScriptId::of_type(MULTISIG_TYPE_HASH)),
    {
        self.get(&ScriptId::new_type(MULTISIG_TYPE_HASH))
    }

    /// The dep of the DAO script.
    pub fn dao_dep(&self) -> (item: Option<&(CellDep, String)>)
        requires
            self.wf(),
        ensures
            item_ref_model(item) == item_of(self@, ScriptId::of_type(DAO_TYPE_HASH)),
    {
        self.get(&ScriptId::new_type(DAO_TYPE_HASH))
    }

    /// The dep of a script, found by its code hash and hash type.
    pub fn resolve(&self, script: &Script) -> (dep: Option<CellDep>)
        requires
            self.wf(),
            script@.hash_type <= 2,
        ensures
            dep == (match item_of(self@, ScriptId::named_by(script@)) {
                Some(item) => Some(item.0),
                None => None,
            }),
    {
        self.offchain.resolve(script)
    }
}

/// What comes of a block with these type hashes at the places of the three system scripts: the
/// first thing that is wrong, or else the resolver of the three.
pub open spec fn genesis_outcome(
    block: GenesisBlockModel,
    sighash_type_hash: Option<[u8; 32]>,
    multisig_type_hash: Option<[u8; 32]>,
    dao_type_hash: Option<[u8; 32]>,
    result: Result<DefaultCellDepResolver, ParseGenesisInfoError>,
) -> bool {
    if block.number != 0 {
        result == Err::<DefaultCellDepResolver, ParseGenesisInfoError>(
            ParseGenesisInfoError::InvalidBlockNumber(block.number),
        )
    } else {
        match (sighash_type_hash, multisig_type_hash, dao_type_hash) {
            (None, _, _) => type_hash_missing(
                result,
                "No type hash(sighash) found in txs[0][1]"@,
            ),
            (Some(_), None, _) => type_hash_missing(
                result,
                "No type hash(multisig) found in txs[0][4]"@,
            ),
            (Some(_), Some(_), None) => type_hash_missing(
                result,
                "No type hash(dao) found in txs[0][2]"@,
            ),
            (Some(sighash), Some(multisig), Some(dao)) => result matches Ok(resolver)
                && resolver.wf() && resolver@ == block.system_items(sighash, multisig, dao),
        }
    }
}

/// The result is the error that a type hash is missing, with this text.
pub open spec fn type_hash_missing(
    result: Result<DefaultCellDepResolver, ParseGenesisInfoError>,
    text: Seq<char>,
) -> bool {
    result matches Err(ParseGenesisInfoError::TypeHashNotFound(what)) && what@ == text
}

/// A resolver read from a genesis block knows the three system scripts by the hashes of their type
/// scripts, each with its dep and name, and nothing else. Where two of the hashes are the same, the
/// later script counts.
pub proof fn law_genesis_registers_the_system_scripts(
    block: GenesisBlockModel,
    sighash: [u8; 32],
    multisig: [u8; 32],
    dao: [u8; 32],
    other: ScriptId,
)
    ensures
        ({
            let items = block.system_items(sighash, multisig, dao);
            &&& item_of(items, ScriptId::of_type(dao)) == Some(
                (block.dep_at(DAO_OUTPUT_LOC, DepType::Code), "Nervos DAO"@),
            )
            &&& multisig != dao ==> item_of(items, ScriptId::of_type(multisig)) == Some(
                (
                    block.dep_at(MULTISIG_GROUP_OUTPUT_LOC, DepType::DepGroup),
                    "Secp256k1 blake160 multisig all"@,
                ),
            )
            &&& sighash != multisig && sighash != dao ==> item_of(
                items,
                ScriptId::of_type(sighash),
            ) == Some(
                (
                    block.dep_at(SIGHASH_GROUP_OUTPUT_LOC, DepType::DepGroup),
                    "Secp256k1 blake160 sighash all"@,
                ),
            )
            &&& items.dom().contains(other) <==> other == ScriptId::of_type(sighash) || other
                == ScriptId::of_type(multisig) || other == ScriptId::of_type(dao)
        }),
{
}

/// On a chain whose system scripts have the type scripts of the public chains, the deps of all
/// three are known by their well-known hashes.
pub proof fn law_public_chain_deps_are_known(block: GenesisBlockModel)
    ensures
        ({
            let items = block.system_items(SIGHASH_TYPE_HASH, MULTISIG_TYPE_HASH, DAO_TYPE_HASH);
            &&& item_of(items, ScriptId::of_type(SIGHASH_TYPE_HASH)) == Some(
                (
                    block.dep_at(SIGHASH_GROUP_OUTPUT_LOC, DepType::DepGroup),
                    "Secp256k1 blake160 sighash all"@,
                ),
            )
            &&& item_of(items, ScriptId::of_type(MULTISIG_TYPE_HASH)) == Some(
                (
                    block.dep_at(MULTISIG_GROUP_OUTPUT_LOC, DepType::DepGroup),
                    "Secp256k1 blake160 multisig all"@,
                ),
            )
            &&& item_of(items, ScriptId::of_type(DAO_TYPE_HASH)) == Some(
                (block.dep_at(DAO_OUTPUT_LOC, DepType::Code), "Nervos DAO"@),
            )
        }),
{
    assert(SIGHASH_TYPE_HASH@[0] == 0x9b);
    assert(MULTISIG_TYPE_HASH@[0] == 0x5c);
    assert(DAO_TYPE_HASH@[0] == 0x82);
}

proof fn lemma_push_option<A>(list: Seq<A>, item: Option<A>, x: A)
    ensures
        push_option(list, item).contains(x) <==> list.contains(x) || item == Some(x),
{
    if let Some(item) = item {
        if list.contains(x) {
            assert(list.push(item)[list.index_of(x)] == x);
        }
        assert(list.push(item)[list.len() as int] == item);
        if list.push(item).contains(x) && x != item {
            assert(list[list.push(item).index_of(x)] == x);
        }
    }
}

/// The mismatches of a genesis block are exactly the system scripts whose cell is there with data
/// of another hash than expected.
pub proof fn law_mismatches_name_the_wrong_code(
    block: GenesisBlockModel,
    expected: CodeHashes,
    mismatch: CodeHashMismatch,
)
    ensures
        block.code_hash_mismatches(expected).contains(mismatch) <==> {
            &&& block.number == 0
            &&& block.code_hash_at(mismatch.script.loc()) == Some(mismatch.found)
            &&& mismatch.expected == expected.of(mismatch.script)
            &&& mismatch.found != mismatch.expected
        },
{
    let none = Seq::<CodeHashMismatch>::empty();
    let sighash = block.mismatch(expected, SystemScript::Sighash);
    let dao = block.mismatch(expected, SystemScript::Dao);
    let multisig = block.mismatch(expected, SystemScript::Multisig);
    lemma_push_option(none, sighash, mismatch);
    lemma_push_option(push_option(none, sighash), dao, mismatch);
    lemma_push_option(push_option(push_option(none, sighash), dao), multisig, mismatch);
}

/// A registered dep is found, and the deps of the other scripts stay as they were.
pub proof fn law_registered_deps_are_found(
    items: Map<ScriptId, (CellDep, Seq<char>)>,
    script_id: ScriptId,
    item: (CellDep, Seq<char>),
    other: ScriptId,
)
    ensures
        item_of(items.insert(script_id, item), script_id) == Some(item),
        other != script_id ==> item_of(items.insert(script_id, item), other) == item_of(
            items,
            other,
        ),
{
}

/// A forgotten dep is not found, and the deps of the other scripts stay as they were.
pub proof fn law_forgotten_deps_are_not_found(
    items: Map<ScriptId, (CellDep, Seq<char>)>,
    script_id: ScriptId,
    other: ScriptId,
)
    ensures
        item_of(items.remove(script_id), script_id) is None,
        other != script_id ==> item_of(items.remove(script_id), other) == item_of(items, other),
{
}

/// Forgetting a dep undoes its registration, and registering what was handed back undoes the
/// forgetting.
pub proof fn law_forgetting_undoes_registering(
    items: Map<ScriptId, (CellDep, Seq<char>)>,
    script_id: ScriptId,
    item: (CellDep, Seq<char>),
)
    ensures
        item_of(items, script_id) is None ==> items.insert(script_id, item).remove(script_id)
            == items,
        item_of(items, script_id) == Some(item) ==> items.remove(script_id).insert(script_id, item)
            == items,
{
    if item_of(items, script_id) is None {
        assert(items.insert(script_id, item).remove(script_id) =~= items);
    }
    if item_of(items, script_id) == Some(item) {
        assert(items.remove(script_id).insert(script_id, item) =~= items);
    }
}

/// Two scripts have the same dep looked up exactly where they name the same code: the arguments
/// play no part.
pub proof fn law_scripts_are_told_apart_by_their_code(a: ScriptModel, b: ScriptModel)
    requires
        a.hash_type <= 2,
        b.hash_type <= 2,
    ensures
        ScriptId::named_by(a) == ScriptId::named_by(b) <==> a.code_hash == b.code_hash
            && a.hash_type == b.hash_type,
{
}

/// The text of an error says what is wrong, and with which number or thing.
pub proof fn law_error_texts(number: u64, what: String)
    ensures
        ParseGenesisInfoError::InvalidBlockNumber(number).text()
            == "invalid block number, expected: 0, got: `"@ + crate::bytes::decimal(number as nat)
            + "`"@,
        ParseGenesisInfoError::DataHashNotFound(what).text() == "data not found: `"@ + what@ + "`"@,
        ParseGenesisInfoError::TypeHashNotFound(what).text() == "type not found: `"@ + what@ + "`"@,
{
}

/// A block is told by its number and its transactions, and a transaction by its hash, its outputs
/// and their data, all in order.
pub proof fn law_a_genesis_block_is_its_fields(block: GenesisBlock, tx: int, output: int)
    ensures
        block@.number == block.number,
        block@.transactions.len() == block.transactions@.len(),
        0 <= tx < block.transactions@.len() ==> {
            let held = block@.transactions[tx];
            let own = block.transactions@[tx];
            &&& held.hash == own.hash
            &&& held.outputs.len() == own.outputs@.len()
            &&& held.outputs_data.len() == own.outputs_data@.len()
            &&& 0 <= output < own.outputs@.len() ==> held.outputs[output] == own.outputs@[output]@
            &&& 0 <= output < own.outputs_data@.len() ==> held.outputs_data[output]
                == own.outputs_data@[output]@
        },
{
}

/// A block has a cell exactly where it has both an output and its data, and a type script exactly
/// where that output has one.
pub proof fn law_a_cell_is_an_output_with_its_data(block: GenesisBlockModel, loc: (usize, usize))
    ensures
        block.has_cell(loc) <==> loc.0 < block.transactions.len() && loc.1
            < block.transactions[loc.0 as int].outputs.len() && loc.1
            < block.transactions[loc.0 as int].outputs_data.len(),
        block.has_type_script(loc) <==> block.has_cell(loc)
            && block.transactions[loc.0 as int].outputs[loc.1 as int].type_ is Some,
{
}

/// There is a type hash exactly where the block has a cell with a type script, whatever the cell's
/// data is; and there is a code hash exactly where it has a cell, whatever its scripts are.
pub proof fn law_hashes_are_there_with_their_cells(block: GenesisBlockModel, loc: (usize, usize))
    ensures
        block.type_hash_at(loc) is Some <==> block.has_type_script(loc),
        block.code_hash_at(loc) is Some <==> block.has_cell(loc),
{
}

/// A type hash depends on the type script alone, and a code hash on the data alone: two cells with
/// the same script, or the same data, have the same hash.
pub proof fn law_hashes_depend_on_what_is_hashed(
    a: GenesisBlockModel,
    at: (usize, usize),
    b: GenesisBlockModel,
    bt: (usize, usize),
)
    requires
        a.has_cell(at),
        b.has_cell(bt),
    ensures
        a.transactions[at.0 as int].outputs[at.1 as int].type_
            == b.transactions[bt.0 as int].outputs[bt.1 as int].type_ ==> a.type_hash_at(at)
            == b.type_hash_at(bt),
        a.transactions[at.0 as int].outputs_data[at.1 as int]
            == b.transactions[bt.0 as int].outputs_data[bt.1 as int] ==> a.code_hash_at(at)
            == b.code_hash_at(bt),
{
}

/// A hash of the right bytes is the array of those bytes.
pub proof fn law_a_hash_is_the_array_of_its_bytes(hash: [u8; 32])
    ensures
        hash_array(hash@) == hash,
{
    lemma_hash_array(hash);
}

/// A block that is not the first one is refused with its number. Of the first block, the first of
/// the three scripts, in the order sighash, multisig, DAO, whose type hash is missing is named; and
/// where none is missing the block is read.
pub proof fn law_what_a_genesis_block_gives(
    block: GenesisBlockModel,
    sighash: Option<[u8; 32]>,
    multisig: Option<[u8; 32]>,
    dao: Option<[u8; 32]>,
    result: Result<DefaultCellDepResolver, ParseGenesisInfoError>,
)
    requires
        genesis_outcome(block, sighash, multisig, dao, result),
    ensures
        block.number != 0 <==> result matches Err(ParseGenesisInfoError::InvalidBlockNumber(_)),
        result matches Err(ParseGenesisInfoError::InvalidBlockNumber(number)) ==> number
            == block.number,
        result is Ok <==> block.number == 0 && sighash is Some && multisig is Some && dao is Some,
        result !is Err || !(result->Err_0 is DataHashNotFound),
        block.number == 0 && sighash is None ==> (result matches Err(
            ParseGenesisInfoError::TypeHashNotFound(what),
        ) && what@ == "No type hash(sighash) found in txs[0][1]"@),
        block.number == 0 && sighash is Some && multisig is None ==> (result matches Err(
            ParseGenesisInfoError::TypeHashNotFound(what),
        ) && what@ == "No type hash(multisig) found in txs[0][4]"@),
        block.number == 0 && sighash is Some && multisig is Some && dao is None ==> (result matches Err(
            ParseGenesisInfoError::TypeHashNotFound(what),
        ) && what@ == "No type hash(dao) found in txs[0][2]"@),
{
}

/// A resolver read from a block knows a script exactly where its id is the type hash of one of the
/// three. The DAO's dep is its own cell, the third of the first transaction, as code; those of the
/// other two are the first two cells of the second transaction, as dep groups. Where hashes are the
/// same, the DAO comes before multisig, and that before sighash.
pub proof fn law_the_deps_of_a_genesis_block(
    block: GenesisBlockModel,
    sighash: [u8; 32],
    multisig: [u8; 32],
    dao: [u8; 32],
    resolver: DefaultCellDepResolver,
    id: ScriptId,
)
    requires
        genesis_outcome(block, Some(sighash), Some(multisig), Some(dao), Ok(resolver)),
    ensures
        resolver.wf(),
        resolver@.dom().contains(id) <==> id.hash_type is Type && (id.code_hash == sighash
            || id.code_hash == multisig || id.code_hash == dao),
        resolver@.dom().contains(id) ==> {
            let (dep, name) = resolver@[id];
            if id.code_hash == dao {
                &&& dep.out_point.tx_hash == block.transactions[0].hash
                &&& dep.out_point.index == 2
                &&& dep.dep_type is Code
                &&& name == "Nervos DAO"@
            } else if id.code_hash == multisig {
                &&& dep.out_point.tx_hash == block.transactions[1].hash
                &&& dep.out_point.index == 1
                &&& dep.dep_type is DepGroup
                &&& name == "Secp256k1 blake160 multisig all"@
            } else {
                &&& dep.out_point.tx_hash == block.transactions[1].hash
                &&& dep.out_point.index == 0
                &&& dep.dep_type is DepGroup
                &&& name == "Secp256k1 blake160 sighash all"@
            }
        },
{
}

/// What is registered for a script is what the table has for it; nothing where it has nothing.
pub proof fn law_an_item_is_what_the_table_has(
    items: Map<ScriptId, (CellDep, Seq<char>)>,
    script_id: ScriptId,
)
    ensures
        item_of(items, script_id) is Some <==> items.dom().contains(script_id),
        item_of(items, script_id) matches Some(item) ==> item.0 == items[script_id].0 && item.1
            == items[script_id].1,
{
}

/// An item handed out is the dep and the name themselves, and is there where the item is.
pub proof fn law_items_are_handed_out_unchanged(item: (CellDep, String))
    ensures
        item_model(Some(item)) == Some((item.0, item.1@)),
        item_ref_model(Some(&item)) == Some((item.0, item.1@)),
        item_model(None) is None,
        item_ref_model(None) is None,
{
}

/// A table of deps holds for each of its scripts the dep and the name that stand there.
pub proof fn law_a_table_of_deps_is_its_rows(
    resolver: OffchainCellDepResolver,
    script_id: ScriptId,
)
    ensures
        resolver@.dom().contains(script_id) <==> resolver.items@.dom().contains(script_id),
        resolver@.dom().contains(script_id) ==> resolver@[script_id].0
            == resolver.items@[script_id].0 && resolver@[script_id].1
            == resolver.items@[script_id].1@,
{
}

/// The system scripts have their code in the first transaction: sighash in its second cell, the
/// DAO in its third and multisig in its fifth; each is compared with the hash expected of it.
pub proof fn law_where_the_code_of_a_script_is(script: SystemScript, expected: CodeHashes)
    ensures
        script.loc().0 == 0,
        script is Sighash ==> script.loc().1 == 1 && expected.of(script) == expected.sighash,
        script is Multisig ==> script.loc().1 == 4 && expected.of(script) == expected.multisig,
        script is Dao ==> script.loc().1 == 2 && expected.of(script) == expected.dao,
{
}

/// Two code hashes mismatch exactly where one was found and it is another than expected, and the
/// mismatch says both.
pub proof fn law_a_mismatch_says_both_hashes(
    script: SystemScript,
    found: Option<[u8; 32]>,
    expected: [u8; 32],
)
    ensures
        ({
            let mismatch = CodeHashMismatch::spec_between(script, found, expected);
            &&& mismatch is Some <==> found is Some && found != Some(expected)
            &&& mismatch matches Some(m) ==> {
                &&& m.script == script
                &&& Some(m.found) == found
                &&& m.expected == expected
            }
        }),
{
}

/// The mismatches come in the order in which the cells stand in the block, each once.
pub proof fn law_mismatches_come_in_order(
    block: GenesisBlockModel,
    expected: CodeHashes,
    i: int,
    j: int,
)
    requires
        0 <= i < j < block.code_hash_mismatches(expected).len(),
    ensures
        block.code_hash_mismatches(expected)[i].script.loc().1 < block.code_hash_mismatches(
            expected,
        )[j].script.loc().1,
{
}

/// A transaction makes as many cells as it has both outputs and data.
pub proof fn law_cells_are_counted_with_their_data(tx: GenesisTransactionModel)
    ensures
        tx.cell_count() <= tx.outputs.len(),
        tx.cell_count() <= tx.outputs_data.len(),
        tx.cell_count() == tx.outputs.len() || tx.cell_count() == tx.outputs_data.len(),
{
}

} // verus!
