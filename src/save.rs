//! The whole decode: container, then locator, variable index, string pool and
//! records, in that fixed order.
use vstd::prelude::*;

use crate::container::{container_spec, decode_container};
use crate::cursor::Reader;
use crate::error::DecodeError;
use crate::index::{index_spec, read_variable_index, VarIndex};
use crate::locator::{layout_spec, locate, SaveLayout};
use crate::pool::{pool_spec, read_string_pool, views};
use crate::record::{read_variables, variable_views, variables_spec, Variable, VariableModel};

verus! {

/// Everything that a decode yields.
#[derive(Debug, PartialEq, Eq)]
pub struct SaveData {
    pub layout: SaveLayout,
    /// The main variable index, in file order.
    pub index: Vec<VarIndex>,
    /// The string pool; index 0 is the empty string.
    pub strings: Vec<String>,
    /// One record per index entry, in index order.
    pub variables: Vec<Variable>,
}

/// A decode's result with strings seen as character sequences.
pub type SaveModel = (SaveLayout, Seq<VarIndex>, Seq<Seq<char>>, Seq<VariableModel>);

impl View for SaveData {
    type V = SaveModel;

    open spec fn view(&self) -> SaveModel {
        (self.layout, self.index@, views(self.strings@), variable_views(self.variables@))
    }
}

/// What decoding the reassembled payload `d`, whose inner header is at
/// `header_size`, yields.
pub open spec fn save_entry_spec(d: Seq<u8>, header_size: i32) -> Result<SaveModel, DecodeError> {
    match layout_spec(d, header_size) {
        Err(e) => Err(e),
        Ok(layout) => match index_spec(d, layout.index_section + 2) {
            Err(e) => Err(e),
            Ok(index) => match pool_spec(d, layout.string_section + 2) {
                Err(e) => Err(e),
                Ok(pool) => match variables_spec(d, index, pool, index.len()) {
                    Err(e) => Err(e),
                    Ok(vars) => Ok((layout, index, pool, vars)),
                },
            },
        },
    }
}

/// What decoding the container bytes `data` yields.
pub open spec fn save_spec(data: Seq<u8>) -> Result<SaveModel, DecodeError> {
    match container_spec(data) {
        Err(e) => Err(e),
        Ok((header, _, payload)) => save_entry_spec(payload, header.header_size),
    }
}

/// Decodes a reassembled payload whose inner header is at `header_size`.
pub fn read_save_entry(payload: Vec<u8>, header_size: i32) -> (r: Result<SaveData, DecodeError>)
    ensures
        match r {
            Ok(s) => save_entry_spec(payload@, header_size) == Ok::<SaveModel, DecodeError>(s@),
            Err(e) => save_entry_spec(payload@, header_size) == Err::<SaveModel, DecodeError>(e),
        },
{
    let mut rd = Reader::new(payload);
    let layout = locate(&mut rd, header_size)?;
    let index = read_variable_index(&mut rd, layout.index_section)?;
    let strings = read_string_pool(&mut rd, layout.string_section)?;
    let variables = read_variables(&mut rd, &index, &strings)?;
    Ok(SaveData { layout, index, strings, variables })
}

/// Decodes a whole save file from its bytes.
pub fn decode_save(data: Vec<u8>) -> (r: Result<SaveData, DecodeError>)
    ensures
        match r {
            Ok(s) => save_spec(data@) == Ok::<SaveModel, DecodeError>(s@),
            Err(e) => save_spec(data@) == Err::<SaveModel, DecodeError>(e),
        },
{
    let container = decode_container(data)?;
    read_save_entry(container.payload, container.header.header_size)
}

} // verus!
