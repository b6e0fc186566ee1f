//! The chain's data as plain values: scripts, cells, transactions, headers and what names them.
use vstd::prelude::*;

use crate::bytes::{copy_bytes, same_array};

verus! {

/// Where the sighash script stands in the genesis block: transaction and output.
pub const SIGHASH_OUTPUT_LOC: (usize, usize) = (0, 1);

/// Where the multisig script stands in the genesis block.
pub const MULTISIG_OUTPUT_LOC: (usize, usize) = (0, 4);

/// Where the DAO script stands in the genesis block.
pub const DAO_OUTPUT_LOC: (usize, usize) = (0, 2);

/// Where the dep group of the sighash script stands in the genesis block.
pub const SIGHASH_GROUP_OUTPUT_LOC: (usize, usize) = (1, 0);

/// Where the dep group of the multisig script stands in the genesis block.
pub const MULTISIG_GROUP_OUTPUT_LOC: (usize, usize) = (1, 1);

/// The hash of the sighash script's type script on the public chains.
pub const SIGHASH_TYPE_HASH: [u8; 32] = [
    0x9b, 0xd7, 0xe0, 0x6f, 0x3e, 0xcf, 0x4b, 0xe0,
    0xf2, 0xfc, 0xd2, 0x18, 0x8b, 0x23, 0xf1, 0xb9,
    0xfc, 0xc8, 0x8e, 0x5d, 0x4b, 0x65, 0xa8, 0x63,
    0x7b, 0x17, 0x72, 0x3b, 0xbd, 0xa3, 0xcc, 0xe8,
];

/// The hash of the multisig script's type script on the public chains.
pub const MULTISIG_TYPE_HASH: [u8; 32] = [
    0x5c, 0x50, 0x69, 0xeb, 0x08, 0x57, 0xef, 0xc6,
    0x5e, 0x1b, 0xca, 0x0c, 0x07, 0xdf, 0x34, 0xc3,
    0x16, 0x63, 0xb3, 0x62, 0x2f, 0xd3, 0x87, 0x6c,
    0x87, 0x63, 0x20, 0xfc, 0x96, 0x34, 0xe2, 0xa8,
];

/// The hash of the DAO script's type script on the public chains.
pub const DAO_TYPE_HASH: [u8; 32] = [
    0x82, 0xd7, 0x6d, 0x1b, 0x75, 0xfe, 0x2f, 0xd9,
    0xa2, 0x7d, 0xfb, 0xaa, 0x65, 0xa0, 0x39, 0x22,
    0x1a, 0x38, 0x0d, 0x76, 0xc9, 0x26, 0xf3, 0x78,
    0xd3, 0xf8, 0x1c, 0xf3, 0xe7, 0xe1, 0x3f, 0x2e,
];

/// How the code hash of a script picks the code.
#[derive(Clone, Copy, PartialEq, Eq, Structural, Debug)]
pub enum ScriptHashType {
    /// By the hash of the code cell's data, on the first virtual machine.
    Data,
    /// By the hash of the code cell's type script.
    Type,
    /// By the hash of the code cell's data, on the second virtual machine.
    Data1,
}

impl ScriptHashType {
    /// The byte that stands for a hash type in a script.
    pub open spec fn byte(self) -> u8 {
        match self {
            ScriptHashType::Data => 0,
            ScriptHashType::Type => 1,
            ScriptHashType::Data1 => 2,
        }
    }

    /// Reads the byte of a script; only three bytes stand for a hash type.
    pub fn from_byte(byte: u8) -> (hash_type: Option<ScriptHashType>)
        ensures
            hash_type is Some <==> byte <= 2,
            hash_type matches Some(t) ==> t.byte() == byte,
    {
        if byte == 0 {
            Some(ScriptHashType::Data)
        } else if byte == 1 {
            Some(ScriptHashType::Type)
        } else if byte == 2 {
            Some(ScriptHashType::Data1)
        } else {
            None
        }
    }
}

/// A script: which code runs, and on which arguments.
#[derive(Debug, PartialEq, Eq)]
pub struct Script {
    pub code_hash: [u8; 32],
    /// The hash type as the chain stores it, one byte.
    pub hash_type: u8,
    pub args: Vec<u8>,
}

/// What a [`Script`] holds.
pub struct ScriptModel {
    pub code_hash: [u8; 32],
    pub hash_type: u8,
    pub args: Seq<u8>,
}

impl View for Script {
    type V = ScriptModel;

    open spec fn view(&self) -> ScriptModel {
        ScriptModel { code_hash: self.code_hash, hash_type: self.hash_type, args: self.args@ }
    }
}

impl Script {
    /// A copy of the script.
    pub fn copy(&self) -> (copied: Script)
        ensures
            copied@ == self@,
    {
        Script {
            code_hash: self.code_hash,
            hash_type: self.hash_type,
            args: copy_bytes(&self.args),
        }
    }
}

/// What a possibly absent script holds.
pub open spec fn script_option_model(script: Option<Script>) -> Option<ScriptModel> {
    match script {
        Some(script) => Some(script@),
        None => None,
    }
}

/// What tells one script's code from another's: the code hash and how it is read.
#[derive(Clone, Copy, Debug, PartialEq, Eq)]
pub struct ScriptId {
    pub code_hash: [u8; 32],
    pub hash_type: ScriptHashType,
}

impl ScriptId {
    /// The id of the code whose cell has a type script of this hash.
    pub open spec fn of_type(code_hash: [u8; 32]) -> ScriptId {
        ScriptId { code_hash, hash_type: ScriptHashType::Type }
    }

    /// The id that a script names, where its hash type is one of the three.
    pub open spec fn named_by(script: ScriptModel) -> ScriptId {
        ScriptId {
            code_hash: script.code_hash,
            hash_type: if script.hash_type == 0 {
                ScriptHashType::Data
            } else if script.hash_type == 1 {
                ScriptHashType::Type
            } else {
                ScriptHashType::Data1
            },
        }
    }

    /// The id of the code whose cell has a type script of this hash.
    pub fn new_type(code_hash: [u8; 32]) -> (id: ScriptId)
        ensures
            id == ScriptId::of_type(code_hash),
    {
        ScriptId { code_hash, hash_type: ScriptHashType::Type }
    }

    /// Tells whether two ids are equal.
    pub fn same(&self, other: &ScriptId) -> (same: bool)
        ensures
            same == (*self == *other),
    {
        self.hash_type == other.hash_type && same_array(&self.code_hash, &other.code_hash)
    }
}

/// The place where a cell was made: a transaction, and which of its outputs.
#[derive(Clone, Copy, Debug, PartialEq, Eq)]
pub struct OutPoint {
    pub tx_hash: [u8; 32],
    pub index: u32,
}

impl OutPoint {
    /// Tells whether two places are equal.
    pub fn same(&self, other: &OutPoint) -> (same: bool)
        ensures
            same == (*self == *other),
    {
        self.index == other.index && same_array(&self.tx_hash, &other.tx_hash)
    }
}

/// Whether a dep is one code cell or a cell that lists others.
#[derive(Clone, Copy, PartialEq, Eq, Structural, Debug)]
pub enum DepType {
    Code,
    DepGroup,
}

/// A cell that a transaction has to name so that a script's code is found.
#[derive(Clone, Copy, Debug, PartialEq, Eq)]
pub struct CellDep {
    pub out_point: OutPoint,
    pub dep_type: DepType,
}

/// What a transaction output says of the cell it makes.
#[derive(Debug, PartialEq, Eq)]
pub struct CellOutput {
    pub capacity: u64,
    pub lock: Script,
    pub type_: Option<Script>,
}

/// What a [`CellOutput`] holds.
pub struct CellOutputModel {
    pub capacity: u64,
    pub lock: ScriptModel,
    pub type_: Option<ScriptModel>,
}

impl View for CellOutput {
    type V = CellOutputModel;

    open spec fn view(&self) -> CellOutputModel {
        CellOutputModel {
            capacity: self.capacity,
            lock: self.lock@,
            type_: script_option_model(self.type_),
        }
    }
}

impl CellOutput {
    /// A copy of the output.
    pub fn copy(&self) -> (copied: CellOutput)
        ensures
            copied@ == self@,
    {
        let type_ = match &self.type_ {
            Some(script) => Some(script.copy()),
            None => None,
        };
        CellOutput { capacity: self.capacity, lock: self.lock.copy(), type_ }
    }
}

/// A cell that no transaction has consumed.
#[derive(Debug, PartialEq, Eq)]
pub struct LiveCell {
    pub output: CellOutput,
    pub output_data: Vec<u8>,
    pub out_point: OutPoint,
    pub block_number: u64,
    pub tx_index: u32,
}

/// What a [`LiveCell`] holds.
pub struct LiveCellModel {
    pub output: CellOutputModel,
    pub output_data: Seq<u8>,
    pub out_point: OutPoint,
    pub block_number: u64,
    pub tx_index: u32,
}

impl View for LiveCell {
    type V = LiveCellModel;

    open spec fn view(&self) -> LiveCellModel {
        LiveCellModel {
            output: self.output@,
            output_data: self.output_data@,
            out_point: self.out_point,
            block_number: self.block_number,
            tx_index: self.tx_index,
        }
    }
}

impl LiveCell {
    /// A copy of the cell.
    pub fn copy(&self) -> (copied: LiveCell)
        ensures
            copied@ == self@,
    {
        LiveCell {
            output: self.output.copy(),
            output_data: copy_bytes(&self.output_data),
            out_point: self.out_point,
            block_number: self.block_number,
            tx_index: self.tx_index,
        }
    }
}

/// What a list of cells holds.
pub open spec fn cells_model(cells: Seq<LiveCell>) -> Seq<LiveCellModel> {
    cells.map_values(|cell: LiveCell| cell@)
}

/// A script is told by its three fields, each as it is.
pub proof fn law_a_script_is_its_fields(script: Script)
    ensures
        script@.code_hash == script.code_hash,
        script@.hash_type == script.hash_type,
        script@.args == script.args@,
{
}

/// An output is told by its capacity, its lock script and its type script, if it has one.
pub proof fn law_an_output_is_its_fields(output: CellOutput)
    ensures
        output@.capacity == output.capacity,
        output@.lock.code_hash == output.lock.code_hash,
        output@.lock.hash_type == output.lock.hash_type,
        output@.lock.args == output.lock.args@,
        output@.type_ is Some <==> output.type_ is Some,
        output.type_ matches Some(script) ==> {
            &&& output@.type_->0.code_hash == script.code_hash
            &&& output@.type_->0.hash_type == script.hash_type
            &&& output@.type_->0.args == script.args@
        },
{
}

/// A live cell is told by its output, its data and where it stands on the chain.
pub proof fn law_a_live_cell_is_its_fields(cell: LiveCell)
    ensures
        cell@.output == cell.output@,
        cell@.output_data == cell.output_data@,
        cell@.out_point == cell.out_point,
        cell@.block_number == cell.block_number,
        cell@.tx_index == cell.tx_index,
{
}

/// A list of cells is told by its cells, in their order.
pub proof fn law_cells_are_listed_in_order(cells: Seq<LiveCell>, at: int)
    ensures
        cells_model(cells).len() == cells.len(),
        0 <= at < cells.len() ==> cells_model(cells)[at] == cells[at]@,
{
}

/// The id that a script names has its code hash, and the hash type that its byte stands for.
pub proof fn law_a_script_names_its_code(script: ScriptModel)
    requires
        script.hash_type <= 2,
    ensures
        ScriptId::named_by(script).code_hash == script.code_hash,
        ScriptId::named_by(script).hash_type is Data <==> script.hash_type == 0,
        ScriptId::named_by(script).hash_type is Type <==> script.hash_type == 1,
        ScriptId::named_by(script).hash_type is Data1 <==> script.hash_type == 2,
        ScriptId::named_by(script).hash_type.byte() == script.hash_type,
{
}

/// The id of a type hash has that hash, read as the hash of a type script.
pub proof fn law_a_type_id_has_the_hash(code_hash: [u8; 32])
    ensures
        ScriptId::of_type(code_hash).code_hash == code_hash,
        ScriptId::of_type(code_hash).hash_type is Type,
        ScriptHashType::Data.byte() == 0,
        ScriptHashType::Type.byte() == 1,
        ScriptHashType::Data1.byte() == 2,
{
}

} // verus!
