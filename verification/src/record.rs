//! A decoded record and the typed values of its info fields.

use vstd::prelude::*;
use crate::dictionary::ValueType;

verus! {

/// The value of one info field of one record.
///
/// `Float` holds each element as the 32 bits of a single-precision number,
/// as they stand in the container.
#[derive(Clone, Debug, PartialEq, Eq)]
pub enum TypedValue {
    Integer(Vec<i32>),
    Float(Vec<u32>),
    Character(Vec<char>),
    String(String),
    Flag(bool),
}

/// The mathematical content of a [`TypedValue`].
pub enum ValueModel {
    Integer(Seq<i32>),
    Float(Seq<u32>),
    Character(Seq<char>),
    String(Seq<char>),
    Flag(bool),
}

impl ValueModel {
    /// The type that a value of this variant has.
    pub open spec fn value_type(self) -> ValueType {
        match self {
            ValueModel::Integer(_) => ValueType::Integer,
            ValueModel::Float(_) => ValueType::Float,
            ValueModel::Character(_) => ValueType::Character,
            ValueModel::String(_) => ValueType::String,
            ValueModel::Flag(_) => ValueType::Flag,
        }
    }
}

impl View for TypedValue {
    type V = ValueModel;

    open spec fn view(&self) -> ValueModel {
        match self {
            TypedValue::Integer(v) => ValueModel::Integer(v@),
            TypedValue::Float(v) => ValueModel::Float(v@),
            TypedValue::Character(v) => ValueModel::Character(v@),
            TypedValue::String(v) => ValueModel::String(v@),
            TypedValue::Flag(v) => ValueModel::Flag(*v),
        }
    }
}

impl TypedValue {
    /// The type that a value of this variant has.
    pub fn value_type(&self) -> (t: ValueType)
        ensures
            t == self@.value_type(),
    {
        match self {
            TypedValue::Integer(_) => ValueType::Integer,
            TypedValue::Float(_) => ValueType::Float,
            TypedValue::Character(_) => ValueType::Character,
            TypedValue::String(_) => ValueType::String,
            TypedValue::Flag(_) => ValueType::Flag,
        }
    }
}

/// One entry of a record's info block: the field, by the position of its
/// declaration, and its value.
#[derive(Clone, Debug, PartialEq, Eq)]
pub struct InfoField {
    pub key_index: u16,
    pub value: TypedValue,
}

/// The mathematical content of an [`InfoField`].
pub struct InfoModel {
    pub key_index: u16,
    pub value: ValueModel,
}

impl View for InfoField {
    type V = InfoModel;

    open spec fn view(&self) -> InfoModel {
        InfoModel { key_index: self.key_index, value: self.value@ }
    }
}

/// One variant record.
#[derive(Clone, Debug, PartialEq, Eq)]
pub struct Record {
    /// The contig, by the position of its declaration.
    pub contig_index: u32,
    /// The position on the contig, counted from 0.
    pub position: u32,
    pub ref_allele: String,
    pub alt_alleles: Vec<String>,
    pub info_fields: Vec<InfoField>,
}

/// The mathematical content of a [`Record`].
pub struct RecordModel {
    pub contig_index: u32,
    pub position: u32,
    pub ref_allele: Seq<char>,
    pub alt_alleles: Seq<Seq<char>>,
    pub info_fields: Seq<InfoModel>,
}

impl View for Record {
    type V = RecordModel;

    open spec fn view(&self) -> RecordModel {
        RecordModel {
            contig_index: self.contig_index,
            position: self.position,
            ref_allele: self.ref_allele@,
            alt_alleles: self.alt_alleles@.map_values(|t: String| t@),
            info_fields: self.info_fields@.map_values(|f: InfoField| f@),
        }
    }
}

} // verus!
