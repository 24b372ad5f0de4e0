use vstd::prelude::*;
use vstd::multiset::Multiset;

verus! {

#[verifier::external_type_specification]
#[verifier::external_body]
pub struct ExDataType(specta::datatype::DataType);

#[verifier::external_type_specification]
#[verifier::external_body]
pub struct ExTypes(specta::Types);

#[verifier::external_type_specification]
#[verifier::external_body]
pub struct ExTypescriptError(specta_typescript::Error);

/// The names of the completed named datatypes that a `specta::Types`
/// collection holds, one occurrence per entry.
pub uninterp spec fn named_types(types: specta::Types) -> Multiset<Seq<char>>;

/// Calls `specta::Types::default`, which makes a collection without entries.
#[verifier::external_body]
pub(crate) fn types_default() -> (res: specta::Types)
    ensures
        named_types(res) == Multiset::<Seq<char>>::empty(),
{
    specta::Types::default()
}

/// Calls `specta::Types::extend`. Its source keeps every completed entry of
/// `dst` and adds, under each key of `src` that `dst` lacks or only holds a
/// placeholder for, the entry of `src`. So the entries of `dst` stay, every
/// completed key of `src` ends up completed, and every entry comes from `dst`
/// or from `src`.
#[verifier::external_body]
pub(crate) fn types_extend(dst: &mut specta::Types, src: &specta::Types)
    ensures
        named_types(*old(dst)).subset_of(named_types(*final(dst))),
        named_types(*src).len() <= named_types(*final(dst)).len(),
        named_types(*final(dst)).subset_of(named_types(*old(dst)).add(named_types(*src))),
{
    dst.extend(src)
}

/// Calls `specta::Types::clone` (derived), which copies every entry.
#[verifier::external_body]
pub(crate) fn types_clone(types: &specta::Types) -> (res: specta::Types)
    ensures
        named_types(res) == named_types(*types),
{
    types.clone()
}

/// The description of a procedure that bindings are generated from: its key
/// and the datatypes of its argument and of its result.
pub struct ProcedureDataType {
    pub key: String,
    pub input: specta::datatype::DataType,
    pub result: specta::datatype::DataType,
}

/// A procedure description as contracts see it.
pub ghost struct ProcedureDataTypeView {
    pub key: Seq<char>,
    pub input: specta::datatype::DataType,
    pub result: specta::datatype::DataType,
}

impl View for ProcedureDataType {
    type V = ProcedureDataTypeView;

    open spec fn view(&self) -> ProcedureDataTypeView {
        ProcedureDataTypeView { key: self.key@, input: self.input, result: self.result }
    }
}

/// Describes the procedure `key` whose argument has datatype `input` and whose
/// result has datatype `result` (as `specta::Type::definition` gives them for
/// the argument and result types).
pub fn typedef(
    key: &str,
    input: specta::datatype::DataType,
    result: specta::datatype::DataType,
) -> (res: Result<ProcedureDataType, specta_typescript::Error>)
    ensures
        res matches Ok(t) && t.key@ == key@ && t.input == input && t.result == result,
{
    Ok(ProcedureDataType { key: key.to_owned(), input, result })
}

} // verus!
