//! What a header declares: the contigs, and the info and format fields with
//! their cardinality and value type.  A field is known to records by the
//! position of its declaration among the declarations of its kind.

use vstd::prelude::*;
use vstd::hash_map::StringHashMap;
use crate::error::HeaderError;

verus! {

/// How many elements a value of a field has.
#[derive(Clone, Copy, Debug, PartialEq, Eq, Structural)]
pub enum Cardinality {
    /// A count that the header gives.
    Fixed(u32),
    /// One element for each alternate allele.
    PerAltAllele,
    /// One element for each genotype.
    PerGenotype,
    /// A count that varies from record to record.
    Variable,
}

/// What the elements of a value are.
#[derive(Clone, Copy, Debug, PartialEq, Eq, Structural)]
pub enum ValueType {
    Integer,
    Float,
    Character,
    String,
    Flag,
}

/// The declaration of a field.
#[derive(Clone, Debug, PartialEq, Eq)]
pub struct FieldDescriptor {
    pub name: String,
    pub cardinality: Cardinality,
    pub value_type: ValueType,
}

/// The mathematical content of a [`FieldDescriptor`].
pub struct FieldModel {
    pub name: Seq<char>,
    pub cardinality: Cardinality,
    pub value_type: ValueType,
}

impl View for FieldDescriptor {
    type V = FieldModel;

    open spec fn view(&self) -> FieldModel {
        FieldModel {
            name: self.name@,
            cardinality: self.cardinality,
            value_type: self.value_type,
        }
    }
}

/// The declaration of a contig.
#[derive(Clone, Debug, PartialEq, Eq)]
pub struct Contig {
    pub name: String,
    pub length: u64,
}

/// The mathematical content of a [`Contig`].
pub struct ContigModel {
    pub name: Seq<char>,
    pub length: u64,
}

impl View for Contig {
    type V = ContigModel;

    open spec fn view(&self) -> ContigModel {
        ContigModel { name: self.name@, length: self.length }
    }
}

/// The position of the first field from `from` on that is called `name`.
pub open spec fn first_named(fields: Seq<FieldModel>, name: Seq<char>, from: int) -> Option<int>
    decreases fields.len() - from,
{
    if from < 0 || from >= fields.len() {
        None
    } else if fields[from].name == name {
        Some(from)
    } else {
        first_named(fields, name, from + 1)
    }
}

/// The position of the field called `name`, if one is declared.
pub open spec fn index_of_name(fields: Seq<FieldModel>, name: Seq<char>) -> Option<int> {
    first_named(fields, name, 0)
}

/// Whether no two fields have the same name.
pub open spec fn distinct_names(fields: Seq<FieldModel>) -> bool {
    forall|i: int, j: int|
        0 <= i < j < fields.len() ==> (#[trigger] fields[i]).name != (#[trigger] fields[j]).name
}

/// `first_named` finds a field where none before it has the name.
pub proof fn lemma_first_named_found(
    fields: Seq<FieldModel>,
    name: Seq<char>,
    from: int,
    at: int,
)
    requires
        0 <= from <= at < fields.len(),
        fields[at].name == name,
        forall|j: int| from <= j < at ==> (#[trigger] fields[j]).name != name,
    ensures
        first_named(fields, name, from) == Some(at),
    decreases at - from,
{
    if from < at {
        lemma_first_named_found(fields, name, from + 1, at);
    }
}

/// `first_named` finds nothing where no field has the name.
pub proof fn lemma_first_named_absent(fields: Seq<FieldModel>, name: Seq<char>, from: int)
    requires
        0 <= from,
        forall|j: int| from <= j < fields.len() ==> (#[trigger] fields[j]).name != name,
    ensures
        first_named(fields, name, from) is None,
    decreases fields.len() - from,
{
    if from < fields.len() {
        lemma_first_named_absent(fields, name, from + 1);
    }
}

/// What `first_named` returns is a position of the name, and the first.
pub proof fn lemma_first_named_is_first(fields: Seq<FieldModel>, name: Seq<char>, from: int)
    requires
        0 <= from,
    ensures
        match first_named(fields, name, from) {
            Some(at) => from <= at < fields.len() && fields[at].name == name && forall|j: int|
                from <= j < at ==> (#[trigger] fields[j]).name != name,
            None => forall|j: int|
                from <= j < fields.len() ==> (#[trigger] fields[j]).name != name,
        },
    decreases fields.len() - from,
{
    if from < fields.len() && fields[from].name != name {
        lemma_first_named_is_first(fields, name, from + 1);
    }
}

/// The fields of one kind in the order of their declaration, with the way
/// back from a name to its position.
pub struct StringMap {
    fields: Vec<FieldDescriptor>,
    by_name: StringHashMap<usize>,
}

impl View for StringMap {
    type V = Seq<FieldModel>;

    closed spec fn view(&self) -> Seq<FieldModel> {
        self.fields@.map_values(|f: FieldDescriptor| f@)
    }
}

impl StringMap {
    #[verifier::type_invariant]
    spec fn consistent(self) -> bool {
        &&& forall|name: Seq<char>| #[trigger]
            self.by_name@.contains_key(name) ==> self.by_name@[name] < self.fields@.len()
                && self.fields@[self.by_name@[name] as int].name@ == name
        &&& forall|i: int|
            0 <= i < self.fields@.len() ==> self.by_name@.contains_key(
                (#[trigger] self.fields@[i]).name@,
            ) && self.by_name@[self.fields@[i].name@] == i
    }

    /// A map with no field.
    pub fn new() -> (map: Self)
        ensures
            map@ == Seq::<FieldModel>::empty(),
    {
        let map = StringMap { fields: Vec::new(), by_name: StringHashMap::new() };
        assert(map@ =~= Seq::<FieldModel>::empty());
        map
    }

    /// The number of fields.
    pub fn len(&self) -> (n: usize)
        ensures
            n == self@.len(),
    {
        self.fields.len()
    }

    /// The field that records call `key_index`.
    pub fn resolve(&self, key_index: usize) -> (field: Option<&FieldDescriptor>)
        ensures
            key_index < self@.len() ==> field is Some && field->0@ == self@[key_index as int],
            key_index >= self@.len() ==> field is None,
    {
        if key_index < self.fields.len() {
            Some(&self.fields[key_index])
        } else {
            None
        }
    }

    /// The position at which `name` was declared.
    pub fn index_of(&self, name: &str) -> (index: Option<usize>)
        ensures
            match index {
                Some(i) => index_of_name(self@, name@) == Some(i as int),
                None => index_of_name(self@, name@) is None,
            },
            distinct_names(self@),
    {
        proof {
            use_type_invariant(self);
            self.lemma_distinct();
        }
        match self.by_name.get(name) {
            Some(i) => {
                proof {
                    assert forall|j: int| 0 <= j < *i implies (#[trigger] self@[j]).name
                        != name@ by {
                        assert(self.fields@[j].name@ == self@[j].name);
                    }
                    lemma_first_named_found(self@, name@, 0, *i as int);
                }
                Some(*i)
            },
            None => {
                proof {
                    assert forall|j: int| 0 <= j < self@.len() implies (#[trigger] self@[j]).name
                        != name@ by {
                        assert(self.fields@[j].name@ == self@[j].name);
                    }
                    lemma_first_named_absent(self@, name@, 0);
                }
                None
            },
        }
    }

    /// The position at which `name` was declared, and the field declared
    /// there.
    pub fn find(&self, name: &str) -> (found: Option<(usize, &FieldDescriptor)>)
        ensures
            match found {
                Some((i, field)) => index_of_name(self@, name@) == Some(i as int) && i < self@.len()
                    && field@ == self@[i as int],
                None => index_of_name(self@, name@) is None,
            },
    {
        match self.index_of(name) {
            None => None,
            Some(i) => {
                proof {
                    lemma_first_named_is_first(self@, name@, 0);
                }
                Some((i, &self.fields[i]))
            },
        }
    }

    proof fn lemma_distinct(self)
        requires
            self.consistent(),
        ensures
            distinct_names(self@),
    {
        assert forall|i: int, j: int| 0 <= i < j < self@.len() implies (#[trigger] self@[i]).name
            != (#[trigger] self@[j]).name by {
            assert(self.fields@[i].name@ == self@[i].name);
            assert(self.fields@[j].name@ == self@[j].name);
        }
    }

    /// The map with `field` declared behind the fields there are, unless its
    /// name is taken.
    pub fn declare(self, field: FieldDescriptor) -> (r: Result<StringMap, HeaderError>)
        ensures
            match r {
                Ok(map) => index_of_name(self@, field.name@) is None && map@ == self@.push(field@),
                Err(e) => e == HeaderError::DuplicateFieldName && index_of_name(
                    self@,
                    field.name@,
                ) is Some,
            },
    {
        proof {
            use_type_invariant(&self);
        }
        let found = self.index_of(field.name.as_str());
        if found.is_some() {
            return Err(HeaderError::DuplicateFieldName);
        }
        proof {
            lemma_first_named_is_first(self@, field.name@, 0);
            assert(!self.by_name@.contains_key(field.name@)) by {
                if self.by_name@.contains_key(field.name@) {
                    let k = self.by_name@[field.name@] as int;
                    assert(self@[k].name == self.fields@[k].name@);
                }
            }
        }
        let ghost before = self.fields@;
        let StringMap { mut fields, mut by_name } = self;
        let at = fields.len();
        let key = field.name.clone();
        by_name.insert(key, at);
        fields.push(field);
        proof {
            assert forall|i: int| 0 <= i < fields@.len() implies by_name@.contains_key(
                (#[trigger] fields@[i]).name@,
            ) && by_name@[fields@[i].name@] == i by {
                if i < at {
                    assert(fields@[i] == before[i]);
                }
            }
        }
        let map = StringMap { fields, by_name };
        assert(map@ =~= self@.push(field@));
        Ok(map)
    }
}

/// The mathematical content of a [`Dictionary`].
pub struct DictionaryModel {
    pub contigs: Seq<ContigModel>,
    pub info: Seq<FieldModel>,
    pub format: Seq<FieldModel>,
}

/// The declarations of a header.
pub struct Dictionary {
    contigs: Vec<Contig>,
    info: StringMap,
    format: StringMap,
}

impl View for Dictionary {
    type V = DictionaryModel;

    closed spec fn view(&self) -> DictionaryModel {
        DictionaryModel {
            contigs: self.contigs@.map_values(|c: Contig| c@),
            info: self.info@,
            format: self.format@,
        }
    }
}

impl Dictionary {
    /// A dictionary that declares nothing.
    pub fn new() -> (dictionary: Self)
        ensures
            dictionary@.contigs == Seq::<ContigModel>::empty(),
            dictionary@.info == Seq::<FieldModel>::empty(),
            dictionary@.format == Seq::<FieldModel>::empty(),
    {
        let dictionary = Dictionary {
            contigs: Vec::new(),
            info: StringMap::new(),
            format: StringMap::new(),
        };
        assert(dictionary@.contigs =~= Seq::<ContigModel>::empty());
        dictionary
    }

    /// The number of contigs.
    pub fn contig_count(&self) -> (n: usize)
        ensures
            n == self@.contigs.len(),
    {
        self.contigs.len()
    }

    /// The contig that records call `index`.
    pub fn contig(&self, index: usize) -> (contig: Option<&Contig>)
        ensures
            index < self@.contigs.len() ==> contig is Some && contig->0@ == self@.contigs[index as int],
            index >= self@.contigs.len() ==> contig is None,
    {
        if index < self.contigs.len() {
            Some(&self.contigs[index])
        } else {
            None
        }
    }

    /// The info fields.
    pub fn info(&self) -> (map: &StringMap)
        ensures
            map@ == self@.info,
    {
        &self.info
    }

    /// The format fields.
    pub fn format(&self) -> (map: &StringMap)
        ensures
            map@ == self@.format,
    {
        &self.format
    }

    /// The info field that records call `key_index`.
    pub fn resolve(&self, key_index: usize) -> (field: Option<&FieldDescriptor>)
        ensures
            key_index < self@.info.len() ==> field is Some && field->0@ == self@.info[key_index as int],
            key_index >= self@.info.len() ==> field is None,
    {
        self.info.resolve(key_index)
    }

    /// The position at which the info field `name` was declared.
    pub fn index_of(&self, name: &str) -> (index: Option<usize>)
        ensures
            match index {
                Some(i) => index_of_name(self@.info, name@) == Some(i as int),
                None => index_of_name(self@.info, name@) is None,
            },
            distinct_names(self@.info),
    {
        self.info.index_of(name)
    }

    /// The position at which the info field `name` was declared, and the
    /// field declared there.
    pub fn find(&self, name: &str) -> (found: Option<(usize, &FieldDescriptor)>)
        ensures
            match found {
                Some((i, field)) => index_of_name(self@.info, name@) == Some(i as int) && i
                    < self@.info.len() && field@ == self@.info[i as int],
                None => index_of_name(self@.info, name@) is None,
            },
    {
        self.info.find(name)
    }

    /// Adds a contig behind the contigs there are.
    pub fn add_contig(&mut self, contig: Contig)
        ensures
            final(self)@.contigs == old(self)@.contigs.push(contig@),
            final(self)@.info == old(self)@.info,
            final(self)@.format == old(self)@.format,
    {
        self.contigs.push(contig);
        assert(self@.contigs =~= old(self)@.contigs.push(contig@));
    }

    /// The dictionary with an info field declared behind those there are,
    /// unless its name is taken by one of them.
    pub fn declare_info(self, field: FieldDescriptor) -> (r: Result<Dictionary, HeaderError>)
        ensures
            match r {
                Ok(d) => index_of_name(self@.info, field.name@) is None && d@ == (DictionaryModel {
                    info: self@.info.push(field@),
                    ..self@
                }),
                Err(e) => e == HeaderError::DuplicateFieldName && index_of_name(
                    self@.info,
                    field.name@,
                ) is Some,
            },
    {
        let Dictionary { contigs, info, format } = self;
        match info.declare(field) {
            Ok(info) => Ok(Dictionary { contigs, info, format }),
            Err(e) => Err(e),
        }
    }

    /// The dictionary with a format field declared behind those there are,
    /// unless its name is taken by one of them.
    pub fn declare_format(self, field: FieldDescriptor) -> (r: Result<
        Dictionary,
        HeaderError,
    >)
        ensures
            match r {
                Ok(d) => index_of_name(self@.format, field.name@) is None && d@ == (
                DictionaryModel { format: self@.format.push(field@), ..self@ }),
                Err(e) => e == HeaderError::DuplicateFieldName && index_of_name(
                    self@.format,
                    field.name@,
                ) is Some,
            },
    {
        let Dictionary { contigs, info, format } = self;
        match format.declare(field) {
            Ok(format) => Ok(Dictionary { contigs, info, format }),
            Err(e) => Err(e),
        }
    }
}

} // verus!
