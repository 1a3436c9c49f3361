//! Variable records: a two-byte tag at each index entry's offset, then
//! tag-specific fields.
use vstd::prelude::*;

use crate::cursor::{u16_at, Reader, SeekFrom};
use crate::error::DecodeError;
use crate::index::VarIndex;
use crate::pool::views;
use crate::value::{read_value, value_spec, value_width, TypedValue};

verus! {

/// A `"BS"` record: a name only.
#[derive(Debug, PartialEq, Eq)]
pub struct BoundSimple {
    pub name: String,
    pub size: i32,
    pub offset: i32,
}

/// A `"VL"` record: a name, a type name, and a value of that type.
#[derive(Debug, PartialEq, Eq)]
pub struct ValueLiteral {
    pub name: String,
    pub ty: String,
    pub value: TypedValue,
    pub size: i32,
    pub offset: i32,
}

/// One top-level variable.
#[derive(Debug, PartialEq, Eq)]
pub enum Variable {
    BoundSimple(BoundSimple),
    ValueLiteral(ValueLiteral),
    /// A tag this decoder recognises but whose fields it does not read.
    Unparsed(Vec<u8>),
    /// A tag this decoder does not know.
    Unknown(Vec<u8>),
}

/// A variable with its strings seen as character sequences.
pub enum VariableModel {
    BoundSimple { name: Seq<char>, size: i32, offset: i32 },
    ValueLiteral { name: Seq<char>, ty: Seq<char>, value: TypedValue, size: i32, offset: i32 },
    Unparsed(Seq<u8>),
    Unknown(Seq<u8>),
}

impl View for Variable {
    type V = VariableModel;

    open spec fn view(&self) -> VariableModel {
        match self {
            Variable::BoundSimple(b) => VariableModel::BoundSimple {
                name: b.name@,
                size: b.size,
                offset: b.offset,
            },
            Variable::ValueLiteral(v) => VariableModel::ValueLiteral {
                name: v.name@,
                ty: v.ty@,
                value: v.value,
                size: v.size,
                offset: v.offset,
            },
            Variable::Unparsed(t) => VariableModel::Unparsed(t@),
            Variable::Unknown(t) => VariableModel::Unknown(t@),
        }
    }
}

/// The views of a sequence of variables.
pub open spec fn variable_views(v: Seq<Variable>) -> Seq<VariableModel> {
    v.map_values(|x: Variable| x@)
}

/// The tags of the record kinds that are recognised but not decoded:
/// `SX`, `SB`, `RO`, `SS`, `OP`, `BL`, `AV` and `PO`.
pub open spec fn is_unparsed_tag(a: u8, b: u8) -> bool {
    ||| (a == 0x53 && b == 0x58)
    ||| (a == 0x53 && b == 0x42)
    ||| (a == 0x52 && b == 0x4f)
    ||| (a == 0x53 && b == 0x53)
    ||| (a == 0x4f && b == 0x50)
    ||| (a == 0x42 && b == 0x4c)
    ||| (a == 0x41 && b == 0x56)
    ||| (a == 0x50 && b == 0x4f)
}

fn unparsed_tag(a: u8, b: u8) -> (r: bool)
    ensures
        r == is_unparsed_tag(a, b),
{
    (a == 0x53 && b == 0x58) || (a == 0x53 && b == 0x42) || (a == 0x52 && b == 0x4f) || (a == 0x53
        && b == 0x53) || (a == 0x4f && b == 0x50) || (a == 0x42 && b == 0x4c) || (a == 0x41 && b
        == 0x56) || (a == 0x50 && b == 0x4f)
}

/// What the record that `entry` points at in `d` decodes to, with names
/// looked up in `pool`.
pub open spec fn variable_spec(d: Seq<u8>, entry: VarIndex, pool: Seq<Seq<char>>) -> Result<
    VariableModel,
    DecodeError,
> {
    let o = entry.offset as int;
    if o < 0 || o > d.len() {
        Err(DecodeError::OutOfRange)
    } else if o + 2 > d.len() {
        Err(DecodeError::Truncated)
    } else {
        let a = d[o];
        let b = d[o + 1];
        if a == 0x42 && b == 0x53 {
            if o + 4 > d.len() {
                Err(DecodeError::Truncated)
            } else if u16_at(d, o + 2) >= pool.len() {
                Err(DecodeError::IndexOutOfBounds)
            } else {
                Ok(
                    VariableModel::BoundSimple {
                        name: pool[u16_at(d, o + 2) as int],
                        size: 4,
                        offset: entry.offset,
                    },
                )
            }
        } else if a == 0x56 && b == 0x4c {
            if o + 6 > d.len() {
                Err(DecodeError::Truncated)
            } else if u16_at(d, o + 2) >= pool.len() || u16_at(d, o + 4) >= pool.len() {
                Err(DecodeError::IndexOutOfBounds)
            } else {
                match value_spec(d, o + 6, pool[u16_at(d, o + 4) as int]) {
                    Ok(v) => Ok(
                        VariableModel::ValueLiteral {
                            name: pool[u16_at(d, o + 2) as int],
                            ty: pool[u16_at(d, o + 4) as int],
                            value: v,
                            size: 4,
                            offset: entry.offset,
                        },
                    ),
                    Err(e) => Err(e),
                }
            }
        } else if is_unparsed_tag(a, b) {
            Ok(VariableModel::Unparsed(seq![a, b]))
        } else {
            Ok(VariableModel::Unknown(seq![a, b]))
        }
    }
}

/// Where the record at `entry.offset` in `d` ends: after the tag, after the
/// name index of a `"BS"` record, after the value of a `"VL"` record.
pub open spec fn record_end(d: Seq<u8>, entry: VarIndex, pool: Seq<Seq<char>>) -> int {
    let o = entry.offset as int;
    if d[o] == 0x42 && d[o + 1] == 0x53 {
        o + 4
    } else if d[o] == 0x56 && d[o + 1] == 0x4c {
        o + 6 + value_width(pool[u16_at(d, o + 4) as int])
    } else {
        o + 2
    }
}

/// The string at `index` of `table`, if there is one.
fn lookup(table: &Vec<String>, index: u16) -> (r: Result<String, DecodeError>)
    ensures
        match r {
            Ok(s) => index < table@.len() && s@ == table@[index as int]@,
            Err(e) => index >= table@.len() && e == DecodeError::IndexOutOfBounds,
        },
{
    if (index as usize) < table.len() {
        Ok(table[index as usize].clone())
    } else {
        Err(DecodeError::IndexOutOfBounds)
    }
}

/// Reads the fields of a `"BS"` record, whose tag has been read.
fn read_bs(rd: &mut Reader, entry: &VarIndex, table: &Vec<String>) -> (r: Result<
    BoundSimple,
    DecodeError,
>)
    requires
        old(rd).wf(),
    ensures
        final(rd).wf(),
        final(rd).data@ == old(rd).data@,
        ({
            let d = old(rd).data@;
            let p = old(rd).pos as int;
            let pool = views(table@);
            match r {
                Ok(v) => {
                    &&& p + 2 <= d.len()
                    &&& final(rd).pos == p + 2
                    &&& u16_at(d, p) < pool.len()
                    &&& v.name@ == pool[u16_at(d, p) as int]
                    &&& v.size == 4
                    &&& v.offset == entry.offset
                },
                Err(e) => if p + 2 > d.len() {
                    e == DecodeError::Truncated
                } else {
                    u16_at(d, p) >= pool.len() && e == DecodeError::IndexOutOfBounds
                },
            }
        }),
{
    let name_index = rd.read::<u16>()?;
    let name = lookup(table, name_index)?;
    Ok(BoundSimple { name, size: 4, offset: entry.offset })
}

/// Reads the fields of a `"VL"` record, whose tag has been read: name and
/// type indices, then a value of that type.
fn read_vl(rd: &mut Reader, entry: &VarIndex, table: &Vec<String>) -> (r: Result<
    ValueLiteral,
    DecodeError,
>)
    requires
        old(rd).wf(),
    ensures
        final(rd).wf(),
        final(rd).data@ == old(rd).data@,
        ({
            let d = old(rd).data@;
            let p = old(rd).pos as int;
            let pool = views(table@);
            if p + 4 > d.len() {
                r == Err::<ValueLiteral, DecodeError>(DecodeError::Truncated)
            } else if u16_at(d, p) >= pool.len() || u16_at(d, p + 2) >= pool.len() {
                r == Err::<ValueLiteral, DecodeError>(DecodeError::IndexOutOfBounds)
            } else {
                let ty = pool[u16_at(d, p + 2) as int];
                match r {
                    Ok(v) => {
                        &&& value_spec(d, p + 4, ty) == Ok::<TypedValue, DecodeError>(v.value)
                        &&& final(rd).pos == p + 4 + value_width(ty)
                        &&& v.name@ == pool[u16_at(d, p) as int]
                        &&& v.ty@ == ty
                        &&& v.size == 4
                        &&& v.offset == entry.offset
                    },
                    Err(e) => value_spec(d, p + 4, ty) == Err::<TypedValue, DecodeError>(e),
                }
            }
        }),
{
    let name_index = rd.read::<u16>()?;
    let type_index = rd.read::<u16>()?;
    let name = lookup(table, name_index)?;
    let ty = lookup(table, type_index)?;
    let value = read_value(rd, ty.as_str())?;
    Ok(ValueLiteral { name, ty, value, size: 4, offset: entry.offset })
}

/// Decodes the record that `entry` points at; names and types are looked up
/// in `table`, whose index 0 is the empty string.
pub fn read_variable(rd: &mut Reader, entry: &VarIndex, table: &Vec<String>) -> (r: Result<
    Variable,
    DecodeError,
>)
    requires
        old(rd).wf(),
    ensures
        final(rd).wf(),
        final(rd).data@ == old(rd).data@,
        r is Ok ==> final(rd).pos == record_end(old(rd).data@, *entry, views(table@)),
        match r {
            Ok(v) => variable_spec(old(rd).data@, *entry, views(table@)) == Ok::<
                VariableModel,
                DecodeError,
            >(v@),
            Err(e) => variable_spec(old(rd).data@, *entry, views(table@)) == Err::<
                VariableModel,
                DecodeError,
            >(e),
        },
{
    if entry.offset < 0 {
        return Err(DecodeError::OutOfRange);
    }
    rd.seek(SeekFrom::Start(entry.offset as u64))?;
    let a = rd.read::<u8>()?;
    let b = rd.read::<u8>()?;
    if a == 0x42 && b == 0x53 {
        Ok(Variable::BoundSimple(read_bs(rd, entry, table)?))
    } else if a == 0x56 && b == 0x4c {
        Ok(Variable::ValueLiteral(read_vl(rd, entry, table)?))
    } else if unparsed_tag(a, b) {
        Ok(Variable::Unparsed(vec![a, b]))
    } else {
        Ok(Variable::Unknown(vec![a, b]))
    }
}

/// The records of the first `k` entries, in index order; or the first error.
pub open spec fn variables_spec(
    d: Seq<u8>,
    entries: Seq<VarIndex>,
    pool: Seq<Seq<char>>,
    k: nat,
) -> Result<Seq<VariableModel>, DecodeError>
    decreases k,
{
    if k == 0 {
        Ok(Seq::empty())
    } else {
        match variables_spec(d, entries, pool, (k - 1) as nat) {
            Err(e) => Err(e),
            Ok(vs) => match variable_spec(d, entries[k - 1], pool) {
                Err(e) => Err(e),
                Ok(v) => Ok(vs.push(v)),
            },
        }
    }
}

proof fn lemma_variables_err_stays(
    d: Seq<u8>,
    entries: Seq<VarIndex>,
    pool: Seq<Seq<char>>,
    k: nat,
    m: nat,
)
    requires
        k <= m,
        variables_spec(d, entries, pool, k) is Err,
    ensures
        variables_spec(d, entries, pool, m) == variables_spec(d, entries, pool, k),
    decreases m - k,
{
    if k < m {
        lemma_variables_err_stays(d, entries, pool, k, (m - 1) as nat);
    }
}

/// Decodes the record of every entry, in index order; the first error ends
/// the pass.
pub fn read_variables(rd: &mut Reader, entries: &Vec<VarIndex>, table: &Vec<String>) -> (r: Result<
    Vec<Variable>,
    DecodeError,
>)
    requires
        old(rd).wf(),
    ensures
        final(rd).wf(),
        final(rd).data@ == old(rd).data@,
        match r {
            Ok(v) => variables_spec(old(rd).data@, entries@, views(table@), entries@.len())
                == Ok::<Seq<VariableModel>, DecodeError>(variable_views(v@)),
            Err(e) => variables_spec(old(rd).data@, entries@, views(table@), entries@.len())
                == Err::<Seq<VariableModel>, DecodeError>(e),
        },
{
    let ghost d = rd.data@;
    let mut out: Vec<Variable> = Vec::new();
    assert(variable_views(out@) =~= Seq::<VariableModel>::empty());
    let mut k: usize = 0;
    while k < entries.len()
        invariant
            rd.wf(),
            rd.data@ == d,
            d == old(rd).data@,
            k <= entries@.len(),
            variables_spec(d, entries@, views(table@), k as nat) == Ok::<
                Seq<VariableModel>,
                DecodeError,
            >(variable_views(out@)),
        decreases entries@.len() - k,
    {
        let ghost before = out@;
        let v = match read_variable(rd, &entries[k], table) {
            Ok(v) => v,
            Err(e) => {
                proof {
                    lemma_variables_err_stays(
                        d,
                        entries@,
                        views(table@),
                        (k + 1) as nat,
                        entries@.len(),
                    );
                }
                return Err(e);
            },
        };
        out.push(v);
        proof {
            assert(variable_views(out@) =~= variable_views(before).push(v@));
        }
        k = k + 1;
    }
    Ok(out)
}

} // verus!
