//! The format: which object classes there are, with the expression text of
//! each of their attributes, and in which hierarchy their entries are made.
//!
//! Among the attributes of a class the key `rdn` is not an attribute of its
//! own: its value names the attribute that forms the relative distinguished
//! name of the entries.

use vstd::prelude::*;
use vstd::string::*;
use crate::entries::{
    declares, generator_fault, lemma_generator_is_sound, EntryGenerator, GeneratorError,
    GeneratorFault, GeneratorView,
};
use crate::modifiers::well_formed;
use crate::modifiers::parser::{parse, parse_text, Expression, Failure, ParserError};
use crate::modifiers::ModifierTree;

verus! {

/// The attributes of each object class: name and expression text.
pub type Fields = Vec<(String, Vec<(String, String)>)>;

/// The mathematical value of `Fields`.
pub type FieldsView = Seq<(Seq<char>, Seq<(Seq<char>, Seq<char>)>)>;

/// Why a format is not accepted.
#[derive(Debug, Clone, PartialEq, Eq)]
pub enum FormatError {
    /// `count` and `hierarchy` do not have the same number of elements.
    LengthMismatch,
    /// This object class is declared twice.
    DuplicateClass(String),
    /// The hierarchy names this object class, which is not declared.
    UnknownClass(String),
    /// The expression of this attribute of this object class does not parse.
    Parse(String, String, ParserError),
    /// This object class has no `rdn` key.
    MissingRdn(String),
    /// The attributes of this object class make no generator.
    Generator(String, GeneratorError),
}

/// The mathematical value of a `FormatError`.
pub ghost enum FormatFault {
    LengthMismatch,
    DuplicateClass(Seq<char>),
    UnknownClass(Seq<char>),
    Parse(Seq<char>, Seq<char>, Failure),
    MissingRdn(Seq<char>),
    Generator(Seq<char>, GeneratorFault),
}

impl View for FormatError {
    type V = FormatFault;

    open spec fn view(&self) -> FormatFault {
        match self {
            FormatError::LengthMismatch => FormatFault::LengthMismatch,
            FormatError::DuplicateClass(class) => FormatFault::DuplicateClass(class@),
            FormatError::UnknownClass(class) => FormatFault::UnknownClass(class@),
            FormatError::Parse(class, attribute, error) => FormatFault::Parse(
                class@,
                attribute@,
                error@,
            ),
            FormatError::MissingRdn(class) => FormatFault::MissingRdn(class@),
            FormatError::Generator(class, error) => FormatFault::Generator(class@, error@),
        }
    }
}

/// The file specifies how ldap entries should be built.
///
/// The `hierarchy` field describes how the entries will be inserted in the
/// directory: the object class of each level, from the top.
///
/// The `count` describes how many entries are to be generated below each
/// entry of the level above.
#[derive(Debug)]
pub struct Format {
    hierarchy: Vec<String>,
    count: Vec<u64>,
    fields: Fields,
}

/// The mathematical value of a `Format`.
pub ghost struct FormatView {
    pub hierarchy: Seq<Seq<char>>,
    pub count: Seq<u64>,
    pub fields: FieldsView,
}

/// Whether `fields` declares the object class `class`.
pub open spec fn declares_class(fields: FieldsView, class: Seq<char>) -> bool {
    exists|i: int| 0 <= i < fields.len() && (#[trigger] fields[i]).0 == class
}

/// Whether class `i` of `fields` has the name of a class before it.
pub open spec fn repeats_class(fields: FieldsView, i: int) -> bool {
    exists|j: int| 0 <= j < i && (#[trigger] fields[j]).0 == fields[i].0
}

/// The first class from `from` on that is declared twice, as a fault.
pub open spec fn first_duplicate(fields: FieldsView, from: int) -> Option<FormatFault>
    decreases fields.len() - from,
{
    if from < 0 || from >= fields.len() {
        None
    } else if repeats_class(fields, from) {
        Some(FormatFault::DuplicateClass(fields[from].0))
    } else {
        first_duplicate(fields, from + 1)
    }
}

/// The first level of `hierarchy` from `from` on whose class `fields` does
/// not declare, as a fault.
pub open spec fn first_unknown(hierarchy: Seq<Seq<char>>, fields: FieldsView, from: int) -> Option<
    FormatFault,
>
    decreases hierarchy.len() - from,
{
    if from < 0 || from >= hierarchy.len() {
        None
    } else if !declares_class(fields, hierarchy[from]) {
        Some(FormatFault::UnknownClass(hierarchy[from]))
    } else {
        first_unknown(hierarchy, fields, from + 1)
    }
}

/// Why the parts make no format: the lists differ in length, or else a class
/// is declared twice, or else the hierarchy names a class that is not
/// declared. `None` if they make one.
pub open spec fn format_fault(hierarchy: Seq<Seq<char>>, count: Seq<u64>, fields: FieldsView) -> Option<
    FormatFault,
> {
    if hierarchy.len() != count.len() {
        Some(FormatFault::LengthMismatch)
    } else {
        match first_duplicate(fields, 0) {
            Some(fault) => Some(fault),
            None => first_unknown(hierarchy, fields, 0),
        }
    }
}

/// Whether `key` is the key that names the rdn attribute.
pub open spec fn is_rdn_key(key: Seq<char>) -> bool {
    key == "rdn"@
}

/// Whether an `rdn` key stands before attribute `i`.
pub open spec fn rdn_stands_before(attributes: Seq<(Seq<char>, Seq<char>)>, i: int) -> bool {
    exists|j: int| 0 <= j < i && is_rdn_key((#[trigger] attributes[j]).0)
}

/// The fault of the first attribute from `from` on whose text has one: an
/// expression that does not parse, or an `rdn` key where one stands before
/// it. The value of an `rdn` key is no expression and is not parsed.
pub open spec fn first_text_fault(
    class: Seq<char>,
    attributes: Seq<(Seq<char>, Seq<char>)>,
    from: int,
) -> Option<FormatFault>
    decreases attributes.len() - from,
{
    if from < 0 || from >= attributes.len() {
        None
    } else if is_rdn_key(attributes[from].0) {
        if rdn_stands_before(attributes, from) {
            Some(
                FormatFault::Generator(
                    class,
                    GeneratorFault::DuplicateAttribute(attributes[from].0),
                ),
            )
        } else {
            first_text_fault(class, attributes, from + 1)
        }
    } else {
        match parse_text(attributes[from].1) {
            Err(failure) => Some(FormatFault::Parse(class, attributes[from].0, failure)),
            Ok(_) => first_text_fault(class, attributes, from + 1),
        }
    }
}

/// The value of the first `rdn` key from `from` on.
pub open spec fn rdn_from(attributes: Seq<(Seq<char>, Seq<char>)>, from: int) -> Option<Seq<char>>
    decreases attributes.len() - from,
{
    if from < 0 || from >= attributes.len() {
        None
    } else if is_rdn_key(attributes[from].0) {
        Some(attributes[from].1)
    } else {
        rdn_from(attributes, from + 1)
    }
}

/// The first `n` of `attributes` without the `rdn` keys, each with the
/// expression that its text parses to.
pub open spec fn expressions(attributes: Seq<(Seq<char>, Seq<char>)>, n: int) -> Seq<
    (Seq<char>, Expression),
>
    decreases n,
{
    if n <= 0 || n > attributes.len() {
        Seq::empty()
    } else if is_rdn_key(attributes[n - 1].0) {
        expressions(attributes, n - 1)
    } else {
        expressions(attributes, n - 1).push(
            (attributes[n - 1].0, parse_text(attributes[n - 1].1)->Ok_0),
        )
    }
}

/// The generator of the object class `class` with `attributes`, or why there
/// is none: the first fault in the text of an attribute, or else that no
/// `rdn` key is there, or else why the parsed attributes make no generator.
pub open spec fn class_generator(class: Seq<char>, attributes: Seq<(Seq<char>, Seq<char>)>) -> Result<
    GeneratorView,
    FormatFault,
> {
    match first_text_fault(class, attributes, 0) {
        Some(fault) => Err(fault),
        None => match rdn_from(attributes, 0) {
            None => Err(FormatFault::MissingRdn(class)),
            Some(rdn) => {
                let parsed = expressions(attributes, attributes.len() as int);
                match generator_fault(rdn, parsed) {
                    Some(fault) => Err(FormatFault::Generator(class, fault)),
                    None => Ok(
                        GeneratorView { object_class: class, rdn_attribute: rdn, attributes: parsed },
                    ),
                }
            },
        },
    }
}

/// The fault of the first class from `from` on that has no generator.
pub open spec fn first_class_fault(fields: FieldsView, from: int) -> Option<FormatFault>
    decreases fields.len() - from,
{
    if from < 0 || from >= fields.len() {
        None
    } else {
        match class_generator(fields[from].0, fields[from].1) {
            Err(fault) => Some(fault),
            Ok(_) => first_class_fault(fields, from + 1),
        }
    }
}

/// Where no class from `from` on lacks a generator, each of them has one.
pub proof fn lemma_no_class_fault(fields: FieldsView, from: int, i: int)
    requires
        0 <= from <= i < fields.len(),
        first_class_fault(fields, from) is None,
    ensures
        class_generator(fields[i].0, fields[i].1) is Ok,
    decreases i - from,
{
    if from < i {
        lemma_no_class_fault(fields, from + 1, i);
    }
}

/// Where no level from `from` on names an undeclared class, each of them
/// names a declared one.
pub proof fn lemma_no_unknown(hierarchy: Seq<Seq<char>>, fields: FieldsView, from: int, level: int)
    requires
        0 <= from <= level < hierarchy.len(),
        first_unknown(hierarchy, fields, from) is None,
    ensures
        declares_class(fields, hierarchy[level]),
    decreases level - from,
{
    if from < level {
        lemma_no_unknown(hierarchy, fields, from + 1, level);
    }
}

/// Whether one of `generators` makes entries of the object class `class`.
pub open spec fn has_generator(generators: Seq<GeneratorView>, class: Seq<char>) -> bool {
    exists|i: int| 0 <= i < generators.len() && (#[trigger] generators[i]).object_class == class
}

/// Every level of a format has its generator: where the parts make a format
/// and every class of it a generator, each object class that the hierarchy
/// names is the class of one of the generators.
pub proof fn lemma_levels_have_generators(
    hierarchy: Seq<Seq<char>>,
    count: Seq<u64>,
    fields: FieldsView,
    generators: Seq<GeneratorView>,
)
    requires
        format_fault(hierarchy, count, fields) is None,
        generators.len() == fields.len(),
        forall|i: int|
            0 <= i < fields.len() ==> class_generator(fields[i].0, fields[i].1) == Ok::<
                GeneratorView,
                FormatFault,
            >(#[trigger] generators[i]),
    ensures
        forall|level: int|
            0 <= level < hierarchy.len() ==> has_generator(generators, #[trigger] hierarchy[level]),
{
    assert forall|level: int| 0 <= level < hierarchy.len() implies has_generator(
        generators,
        #[trigger] hierarchy[level],
    ) by {
        lemma_no_unknown(hierarchy, fields, 0, level);
        let i = choose|i: int| 0 <= i < fields.len() && (#[trigger] fields[i]).0 == hierarchy[level];
        assert(class_generator(fields[i].0, fields[i].1) == Ok::<GeneratorView, FormatFault>(
            generators[i],
        ));
        assert(generators[i].object_class == hierarchy[level]);
    }
}

/// A generator that a format gives is sound: in every expression of it each
/// `file` call has exactly one literal argument, so a malformed call is
/// refused when the generators are built and never met when entries are
/// generated; and its rdn attribute is among its attributes.
pub proof fn lemma_built_generator_is_sound(class: Seq<char>, attributes: Seq<(Seq<char>, Seq<char>)>)
    requires
        class_generator(class, attributes) is Ok,
    ensures
        ({
            let generator = class_generator(class, attributes)->Ok_0;
            &&& generator.object_class == class
            &&& declares(generator.attributes, generator.rdn_attribute)
            &&& forall|i: int|
                0 <= i < generator.attributes.len() ==> well_formed(
                    (#[trigger] generator.attributes[i]).1,
                )
        }),
{
    let generator = class_generator(class, attributes)->Ok_0;
    lemma_generator_is_sound(generator.rdn_attribute, generator.attributes);
}

/// Builds the generator of one object class.
fn build_generator(class: &String, attributes: &Vec<(String, String)>) -> (res: Result<
    EntryGenerator,
    FormatError,
>)
    ensures
        match res {
            Ok(generator) => class_generator(class@, attributes.deep_view()) == Ok::<
                GeneratorView,
                FormatFault,
            >(generator@),
            Err(error) => class_generator(class@, attributes.deep_view()) == Err::<
                GeneratorView,
                FormatFault,
            >(error@),
        },
{
    let ghost given = attributes.deep_view();
    let rdn_key = "rdn".to_owned();
    let mut object_attributes: Vec<(String, ModifierTree)> = Vec::new();
    let mut rdn_attribute: Option<String> = None;
    let mut i: usize = 0;
    while i < attributes.len()
        invariant
            0 <= i <= attributes.len(),
            given == attributes.deep_view(),
            rdn_key@ == "rdn"@,
            first_text_fault(class@, given, 0) == first_text_fault(class@, given, i as int),
            crate::entries::declarations(object_attributes@) == expressions(given, i as int),
            match rdn_attribute {
                Some(rdn) => rdn_from(given, 0) == Some(rdn@),
                None => rdn_from(given, 0) == rdn_from(given, i as int),
            },
            rdn_attribute is Some == rdn_stands_before(given, i as int),
        decreases attributes.len() - i,
    {
        assert(given[i as int] == (attributes[i as int].0@, attributes[i as int].1@));
        if attributes[i].0 == rdn_key {
            if rdn_attribute.is_some() {
                return Err(
                    FormatError::Generator(
                        class.clone(),
                        GeneratorError::DuplicateAttribute(attributes[i].0.clone()),
                    ),
                );
            }
            rdn_attribute = Some(attributes[i].1.clone());
            assert(is_rdn_key(given[i as int].0));
        } else {
            assert(rdn_stands_before(given, i + 1) == rdn_stands_before(given, i as int)) by {
                if rdn_stands_before(given, i + 1) {
                    let j = choose|j: int| 0 <= j < i + 1 && is_rdn_key((#[trigger] given[j]).0);
                    assert(j < i);
                }
            }
            match parse(attributes[i].1.as_str()) {
                Err(error) => {
                    return Err(FormatError::Parse(class.clone(), attributes[i].0.clone(), error));
                },
                Ok(tree) => {
                    let ghost before = crate::entries::declarations(object_attributes@);
                    object_attributes.push((attributes[i].0.clone(), tree));
                    proof {
                        assert(crate::entries::declarations(object_attributes@) =~= before.push(
                            (given[i as int].0, tree@),
                        ));
                    }
                },
            }
        }
        i += 1;
    }
    match rdn_attribute {
        None => Err(FormatError::MissingRdn(class.clone())),
        Some(rdn) => match EntryGenerator::new(class.clone(), rdn, object_attributes) {
            Ok(generator) => Ok(generator),
            Err(error) => Err(FormatError::Generator(class.clone(), error)),
        },
    }
}

impl View for Format {
    type V = FormatView;

    closed spec fn view(&self) -> FormatView {
        FormatView {
            hierarchy: self.hierarchy.deep_view(),
            count: self.count@,
            fields: self.fields.deep_view(),
        }
    }
}

impl Format {
    #[verifier::type_invariant]
    closed spec fn wf(self) -> bool {
        format_fault(self.hierarchy.deep_view(), self.count@, self.fields.deep_view()) is None
    }

    /// The format made of the parts, if they make one.
    pub fn new(hierarchy: Vec<String>, count: Vec<u64>, fields: Fields) -> (res: Result<
        Format,
        FormatError,
    >)
        ensures
            match res {
                Ok(format) => format_fault(hierarchy.deep_view(), count@, fields.deep_view()) is None
                    && format@ == (FormatView {
                    hierarchy: hierarchy.deep_view(),
                    count: count@,
                    fields: fields.deep_view(),
                }),
                Err(error) => format_fault(hierarchy.deep_view(), count@, fields.deep_view())
                    == Some(error@),
            },
    {
        let ghost levels = hierarchy.deep_view();
        let ghost classes = fields.deep_view();
        if count.len() != hierarchy.len() {
            return Err(FormatError::LengthMismatch);
        }
        let mut i: usize = 0;
        while i < fields.len()
            invariant
                0 <= i <= fields.len(),
                classes == fields.deep_view(),
                levels == hierarchy.deep_view(),
                levels.len() == count@.len(),
                first_duplicate(classes, 0) == first_duplicate(classes, i as int),
            decreases fields.len() - i,
        {
            let mut j: usize = 0;
            while j < i
                invariant
                    0 <= j <= i < fields.len(),
                    classes == fields.deep_view(),
                    levels == hierarchy.deep_view(),
                    levels.len() == count@.len(),
                    first_duplicate(classes, 0) == first_duplicate(classes, i as int),
                    forall|k: int| 0 <= k < j ==> (#[trigger] classes[k]).0 != classes[i as int].0,
                decreases i - j,
            {
                assert(classes[j as int].0 == fields[j as int].0@);
                assert(classes[i as int].0 == fields[i as int].0@);
                if fields[j].0 == fields[i].0 {
                    return Err(FormatError::DuplicateClass(fields[i].0.clone()));
                }
                j += 1;
            }
            i += 1;
        }
        let mut level: usize = 0;
        while level < hierarchy.len()
            invariant
                0 <= level <= hierarchy.len(),
                levels == hierarchy.deep_view(),
                classes == fields.deep_view(),
                hierarchy.len() == count.len(),
                first_duplicate(classes, 0) is None,
                first_unknown(levels, classes, 0) == first_unknown(levels, classes, level as int),
            decreases hierarchy.len() - level,
        {
            assert(levels[level as int] == hierarchy[level as int]@);
            let mut declared = false;
            let mut k: usize = 0;
            while k < fields.len() && !declared
                invariant
                    0 <= k <= fields.len(),
                    0 <= level < hierarchy.len(),
                    levels == hierarchy.deep_view(),
                    classes == fields.deep_view(),
                    declared ==> declares_class(classes, levels[level as int]),
                    !declared ==> forall|m: int|
                        0 <= m < k ==> (#[trigger] classes[m]).0 != levels[level as int],
                decreases fields.len() - k + if declared { 0int } else { 1int },
            {
                assert(classes[k as int].0 == fields[k as int].0@);
                assert(levels[level as int] == hierarchy[level as int]@);
                if fields[k].0 == hierarchy[level] {
                    declared = true;
                } else {
                    k += 1;
                }
            }
            if !declared {
                return Err(FormatError::UnknownClass(hierarchy[level].clone()));
            }
            level += 1;
        }
        Ok(Format { hierarchy, count, fields })
    }

    /// The levels of the hierarchy: the object class of each and the number
    /// of entries to generate below each entry of the level above.
    pub fn hierarchy_tuples(&self) -> (levels: Vec<(String, u64)>)
        ensures
            format_fault(self@.hierarchy, self@.count, self@.fields) is None,
            levels.len() == self@.hierarchy.len(),
            levels.len() == self@.count.len(),
            forall|i: int|
                0 <= i < levels.len() ==> (#[trigger] levels[i]).0@ == self@.hierarchy[i]
                    && levels[i].1 == self@.count[i],
    {
        proof {
            use_type_invariant(self);
        }
        let mut levels: Vec<(String, u64)> = Vec::new();
        let mut i: usize = 0;
        while i < self.hierarchy.len()
            invariant
                0 <= i <= self.hierarchy.len(),
                self.hierarchy.len() == self.count.len(),
                levels.len() == i,
                forall|k: int|
                    0 <= k < i ==> (#[trigger] levels[k]).0@ == self.hierarchy[k]@ && levels[k].1
                        == self.count[k],
            decreases self.hierarchy.len() - i,
        {
            levels.push((self.hierarchy[i].clone(), self.count[i]));
            i += 1;
        }
        levels
    }

    /// Builds the generator of every object class, in the order in which the
    /// classes are declared.
    pub fn to_entry_generators(self) -> (res: Result<Vec<EntryGenerator>, FormatError>)
        ensures
            format_fault(self@.hierarchy, self@.count, self@.fields) is None,
            match res {
                Ok(generators) => first_class_fault(self@.fields, 0) is None && generators.len()
                    == self@.fields.len() && forall|i: int|
                    0 <= i < generators.len() ==> class_generator(
                        self@.fields[i].0,
                        self@.fields[i].1,
                    ) == Ok::<GeneratorView, FormatFault>((#[trigger] generators[i])@),
                Err(error) => first_class_fault(self@.fields, 0) == Some(error@),
            },
    {
        proof {
            use_type_invariant(&self);
        }
        let ghost classes = self.fields.deep_view();
        let mut generators: Vec<EntryGenerator> = Vec::new();
        let mut i: usize = 0;
        while i < self.fields.len()
            invariant
                0 <= i <= self.fields.len(),
                classes == self.fields.deep_view(),
                self.wf(),
                generators.len() == i,
                first_class_fault(classes, 0) == first_class_fault(classes, i as int),
                forall|k: int|
                    0 <= k < i ==> class_generator(classes[k].0, classes[k].1) == Ok::<
                        GeneratorView,
                        FormatFault,
                    >((#[trigger] generators[k])@),
            decreases self.fields.len() - i,
        {
            assert(classes[i as int] == (self.fields[i as int].0@, self.fields[i as int].1.deep_view()));
            match build_generator(&self.fields[i].0, &self.fields[i].1) {
                Err(error) => {
                    return Err(error);
                },
                Ok(generator) => {
                    generators.push(generator);
                },
            }
            i += 1;
        }
        Ok(generators)
    }

    /// The attributes of each object class.
    pub fn fields(&self) -> (fields: &Fields)
        ensures
            fields.deep_view() == self@.fields,
            format_fault(self@.hierarchy, self@.count, self@.fields) is None,
    {
        proof {
            use_type_invariant(self);
        }
        &self.fields
    }
}

} // verus!
