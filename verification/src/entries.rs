//! Entry generators: one per object class, each with the expressions of its
//! attributes and the name of the attribute that forms the entry's relative
//! distinguished name.

use vstd::prelude::*;
use vstd::string::*;
use crate::modifiers::file_cache::FileCache;
use crate::modifiers::parser::Expression;
use crate::modifiers::{file_refs, files_loaded, may_yield, well_formed, ModifierTree};
use crate::text::texts;
use crate::types::{EntryView, LdapEntry};

verus! {

/// Why attributes do not make an entry generator.
#[derive(Debug, Clone, PartialEq, Eq)]
pub enum GeneratorError {
    /// The expression of this attribute holds a `file` call that does not
    /// have exactly one literal argument.
    InvalidFileCall(String),
    /// This attribute is declared twice.
    DuplicateAttribute(String),
    /// The attribute named as the rdn is not declared.
    UndeclaredRdn(String),
}

/// The mathematical value of a `GeneratorError`.
pub ghost enum GeneratorFault {
    InvalidFileCall(Seq<char>),
    DuplicateAttribute(Seq<char>),
    UndeclaredRdn(Seq<char>),
}

impl View for GeneratorError {
    type V = GeneratorFault;

    open spec fn view(&self) -> GeneratorFault {
        match self {
            GeneratorError::InvalidFileCall(name) => GeneratorFault::InvalidFileCall(name@),
            GeneratorError::DuplicateAttribute(name) => GeneratorFault::DuplicateAttribute(name@),
            GeneratorError::UndeclaredRdn(name) => GeneratorFault::UndeclaredRdn(name@),
        }
    }
}

/// The entry generator is used to generate entries of one specific object class.
#[derive(Debug)]
pub struct EntryGenerator {
    object_class: String,
    rdn_attribute: String,
    attributes: Vec<(String, ModifierTree)>,
}

/// The mathematical value of an `EntryGenerator`.
pub ghost struct GeneratorView {
    pub object_class: Seq<char>,
    pub rdn_attribute: Seq<char>,
    pub attributes: Seq<(Seq<char>, Expression)>,
}

/// The names and expressions of a list of attributes.
pub open spec fn declarations(attributes: Seq<(String, ModifierTree)>) -> Seq<(Seq<char>, Expression)> {
    Seq::new(attributes.len(), |i: int| (attributes[i].0@, attributes[i].1@))
}

/// What is wrong with attribute `i`, if anything: its expression holds a
/// malformed `file` call, or else its name was declared before.
pub open spec fn attribute_fault(attributes: Seq<(Seq<char>, Expression)>, i: int) -> Option<
    GeneratorFault,
> {
    if !well_formed(attributes[i].1) {
        Some(GeneratorFault::InvalidFileCall(attributes[i].0))
    } else if exists|j: int| 0 <= j < i && (#[trigger] attributes[j]).0 == attributes[i].0 {
        Some(GeneratorFault::DuplicateAttribute(attributes[i].0))
    } else {
        None
    }
}

/// The fault of the first attribute from `from` on that has one.
pub open spec fn first_fault(attributes: Seq<(Seq<char>, Expression)>, from: int) -> Option<
    GeneratorFault,
>
    decreases attributes.len() - from,
{
    if from < 0 || from >= attributes.len() {
        None
    } else {
        match attribute_fault(attributes, from) {
            Some(fault) => Some(fault),
            None => first_fault(attributes, from + 1),
        }
    }
}

/// Whether an attribute called `name` is among `attributes`.
pub open spec fn declares(attributes: Seq<(Seq<char>, Expression)>, name: Seq<char>) -> bool {
    exists|i: int| 0 <= i < attributes.len() && (#[trigger] attributes[i]).0 == name
}

/// Why `attributes` with the rdn attribute `rdn` make no generator: the first
/// fault among the attributes, or else that `rdn` is not declared. `None` if
/// they make one.
pub open spec fn generator_fault(rdn: Seq<char>, attributes: Seq<(Seq<char>, Expression)>) -> Option<
    GeneratorFault,
> {
    match first_fault(attributes, 0) {
        Some(fault) => Some(fault),
        None => if declares(attributes, rdn) {
            None
        } else {
            Some(GeneratorFault::UndeclaredRdn(rdn))
        },
    }
}

/// Whether `i` is the first attribute of `g` that has the name of its rdn
/// attribute.
pub open spec fn is_rdn_index(g: GeneratorView, i: int) -> bool {
    &&& 0 <= i < g.attributes.len()
    &&& g.attributes[i].0 == g.rdn_attribute
    &&& forall|j: int| 0 <= j < i ==> (#[trigger] g.attributes[j]).0 != g.rdn_attribute
}

/// The index of the rdn attribute among the attributes of `g`.
pub open spec fn rdn_index(g: GeneratorView) -> int {
    choose|i: int| is_rdn_index(g, i)
}

/// The entry that `g` makes of the values of its attributes: its relative
/// distinguished name `attribute=value`, and its attribute list, which starts
/// with the object class and goes on with the attributes in their order.
pub open spec fn entry_of(g: GeneratorView, values: Seq<Seq<char>>) -> EntryView {
    (
        g.rdn_attribute + "="@ + values[rdn_index(g)],
        seq![("objectclass"@, g.object_class)] + Seq::new(
            g.attributes.len(),
            |i: int| (g.attributes[i].0, values[i]),
        ),
    )
}

/// Whether `values` holds, for each attribute of `g`, a value that its
/// expression can evaluate to over `cache`.
pub open spec fn yields(
    g: GeneratorView,
    cache: Map<Seq<char>, Seq<Seq<char>>>,
    values: Seq<Seq<char>>,
) -> bool {
    &&& values.len() == g.attributes.len()
    &&& forall|i: int|
        0 <= i < g.attributes.len() ==> may_yield(
            (#[trigger] g.attributes[i]).1,
            cache,
            values[i],
        )
}

/// Whether `cache` has the lines of every file that the expressions of `g`
/// name.
pub open spec fn generator_files_loaded(g: GeneratorView, cache: Map<Seq<char>, Seq<Seq<char>>>) -> bool {
    forall|i: int| 0 <= i < g.attributes.len() ==> files_loaded((#[trigger] g.attributes[i]).1, cache)
}

/// The files that the expressions of `attributes[i..]` name, in the order of
/// the attributes and, within an expression, from left to right.
pub open spec fn files_from(attributes: Seq<(Seq<char>, Expression)>, i: int) -> Seq<Seq<char>>
    decreases attributes.len() - i,
{
    if 0 <= i < attributes.len() {
        file_refs(attributes[i].1) + files_from(attributes, i + 1)
    } else {
        Seq::empty()
    }
}

/// Where no attribute from `from` on has a fault, none of them has one.
pub proof fn lemma_no_fault(attributes: Seq<(Seq<char>, Expression)>, from: int, i: int)
    requires
        0 <= from <= i < attributes.len(),
        first_fault(attributes, from) is None,
    ensures
        attribute_fault(attributes, i) is None,
    decreases i - from,
{
    if from < i {
        lemma_no_fault(attributes, from + 1, i);
    }
}

/// What a generator can rely on: where attributes make a generator, every
/// `file` call in their expressions has exactly one literal argument, no
/// name is declared twice, and the rdn attribute is among them.
pub proof fn lemma_generator_is_sound(rdn: Seq<char>, attributes: Seq<(Seq<char>, Expression)>)
    requires
        generator_fault(rdn, attributes) is None,
    ensures
        forall|i: int| 0 <= i < attributes.len() ==> well_formed((#[trigger] attributes[i]).1),
        forall|i: int, j: int|
            0 <= i < j < attributes.len() ==> (#[trigger] attributes[i]).0 != (
            #[trigger] attributes[j]).0,
        declares(attributes, rdn),
{
    assert forall|i: int| 0 <= i < attributes.len() implies well_formed(
        (#[trigger] attributes[i]).1,
    ) by {
        lemma_no_fault(attributes, 0, i);
    }
    assert forall|i: int, j: int| 0 <= i < j < attributes.len() implies (#[trigger] attributes[i]).0
        != (#[trigger] attributes[j]).0 by {
        lemma_no_fault(attributes, 0, j);
    }
}

/// An entry holds each attribute once: the attribute list that a generator
/// makes starts with the object class and goes on with one value for each of
/// its attributes, whose names all differ.
pub proof fn lemma_entry_attributes(g: GeneratorView, values: Seq<Seq<char>>)
    requires
        generator_fault(g.rdn_attribute, g.attributes) is None,
        values.len() == g.attributes.len(),
    ensures
        entry_of(g, values).1.len() == g.attributes.len() + 1,
        entry_of(g, values).1[0] == ("objectclass"@, g.object_class),
        forall|i: int|
            0 <= i < g.attributes.len() ==> #[trigger] entry_of(g, values).1[i + 1] == (
                g.attributes[i].0,
                values[i],
            ),
        forall|i: int, j: int|
            1 <= i < j <= g.attributes.len() ==> (#[trigger] entry_of(g, values).1[i]).0 != (
            #[trigger] entry_of(g, values).1[j]).0,
        is_rdn_index(g, rdn_index(g)),
{
    lemma_generator_is_sound(g.rdn_attribute, g.attributes);
    let listed = entry_of(g, values).1;
    assert forall|i: int| 0 <= i < g.attributes.len() implies #[trigger] listed[i + 1] == (
        g.attributes[i].0,
        values[i],
    ) by {}
    assert forall|i: int, j: int| 1 <= i < j <= g.attributes.len() implies (#[trigger] listed[i]).0
        != (#[trigger] listed[j]).0 by {
        assert(listed[(i - 1) + 1] == (g.attributes[i - 1].0, values[i - 1]));
        assert(listed[(j - 1) + 1] == (g.attributes[j - 1].0, values[j - 1]));
    }
    lemma_first_of(g.attributes, g.rdn_attribute, g.attributes.len() as int);
    let first = choose|i: int|
        0 <= i < g.attributes.len() && (#[trigger] g.attributes[i]).0 == g.rdn_attribute
            && forall|j: int| 0 <= j < i ==> (#[trigger] g.attributes[j]).0 != g.rdn_attribute;
    assert(is_rdn_index(g, first));
}

/// Among the first `n` attributes, one of which is called `name`, one is the
/// first that is.
proof fn lemma_first_of(attributes: Seq<(Seq<char>, Expression)>, name: Seq<char>, n: int)
    requires
        0 <= n <= attributes.len(),
        exists|i: int| 0 <= i < n && (#[trigger] attributes[i]).0 == name,
    ensures
        exists|i: int|
            0 <= i < n && (#[trigger] attributes[i]).0 == name && forall|j: int|
                0 <= j < i ==> (#[trigger] attributes[j]).0 != name,
    decreases n,
{
    if exists|i: int| 0 <= i < n - 1 && (#[trigger] attributes[i]).0 == name {
        lemma_first_of(attributes, name, n - 1);
    } else {
        assert(attributes[n - 1].0 == name);
    }
}

impl View for EntryGenerator {
    type V = GeneratorView;

    closed spec fn view(&self) -> GeneratorView {
        GeneratorView {
            object_class: self.object_class@,
            rdn_attribute: self.rdn_attribute@,
            attributes: declarations(self.attributes@),
        }
    }
}

impl EntryGenerator {
    #[verifier::type_invariant]
    closed spec fn wf(self) -> bool {
        generator_fault(self.rdn_attribute@, declarations(self.attributes@)) is None
    }

    /// Creates a new `EntryGenerator` using the provided attributes, if they
    /// make one.
    pub fn new(
        object_class: String,
        rdn_attribute: String,
        attributes: Vec<(String, ModifierTree)>,
    ) -> (res: Result<Self, GeneratorError>)
        ensures
            match res {
                Ok(generator) => generator_fault(rdn_attribute@, declarations(attributes@)) is None
                    && generator@ == (GeneratorView {
                    object_class: object_class@,
                    rdn_attribute: rdn_attribute@,
                    attributes: declarations(attributes@),
                }),
                Err(error) => generator_fault(rdn_attribute@, declarations(attributes@)) == Some(
                    error@,
                ),
            },
    {
        let ghost given = declarations(attributes@);
        let mut declared = false;
        let mut i: usize = 0;
        while i < attributes.len()
            invariant
                0 <= i <= attributes.len(),
                given == declarations(attributes@),
                first_fault(given, 0) == first_fault(given, i as int),
                declared == exists|j: int| 0 <= j < i && (#[trigger] given[j]).0 == rdn_attribute@,
            decreases attributes.len() - i,
        {
            assert(given[i as int] == (attributes[i as int].0@, attributes[i as int].1@));
            if !attributes[i].1.is_well_formed() {
                return Err(GeneratorError::InvalidFileCall(attributes[i].0.clone()));
            }
            let mut j: usize = 0;
            while j < i
                invariant
                    0 <= j <= i < attributes.len(),
                    given == declarations(attributes@),
                    first_fault(given, 0) == first_fault(given, i as int),
                    well_formed(given[i as int].1),
                    forall|k: int| 0 <= k < j ==> (#[trigger] given[k]).0 != given[i as int].0,
                decreases i - j,
            {
                assert(given[j as int] == (attributes[j as int].0@, attributes[j as int].1@));
                assert(given[i as int] == (attributes[i as int].0@, attributes[i as int].1@));
                if attributes[j].0 == attributes[i].0 {
                    return Err(GeneratorError::DuplicateAttribute(attributes[i].0.clone()));
                }
                j += 1;
            }
            if attributes[i].0 == rdn_attribute {
                declared = true;
            }
            i += 1;
        }
        if !declared {
            return Err(GeneratorError::UndeclaredRdn(rdn_attribute));
        }
        Ok(Self { object_class, rdn_attribute, attributes })
    }

    /// The object class of the entries.
    pub fn object_class(&self) -> (class: &str)
        ensures
            class@ == self@.object_class,
    {
        self.object_class.as_str()
    }

    /// The name of the attribute whose value names an entry.
    pub fn rdn_attribute(&self) -> (name: &str)
        ensures
            name@ == self@.rdn_attribute,
            declares(self@.attributes, self@.rdn_attribute),
            generator_fault(self@.rdn_attribute, self@.attributes) is None,
    {
        proof {
            use_type_invariant(self);
        }
        self.rdn_attribute.as_str()
    }

    /// The number of attributes that have an expression.
    pub fn attribute_count(&self) -> (n: usize)
        ensures
            n == self@.attributes.len(),
    {
        self.attributes.len()
    }

    /// Attribute number `i`: its name and its expression.
    pub fn attribute(&self, i: usize) -> (attribute: (&str, &ModifierTree))
        requires
            i < self@.attributes.len(),
        ensures
            attribute.0@ == self@.attributes[i as int].0,
            attribute.1@ == self@.attributes[i as int].1,
            well_formed(attribute.1@),
            generator_fault(self@.rdn_attribute, self@.attributes) is None,
    {
        proof {
            use_type_invariant(self);
            lemma_no_fault(declarations(self.attributes@), 0, i as int);
        }
        (self.attributes[i].0.as_str(), &self.attributes[i].1)
    }

    /// The files that the expressions name, each as often as it is named.
    /// They are to be loaded before an entry is generated.
    pub fn file_arguments(&self) -> (files: Vec<&str>)
        ensures
            texts(files@) == files_from(self@.attributes, 0),
            generator_fault(self@.rdn_attribute, self@.attributes) is None,
    {
        proof {
            use_type_invariant(self);
        }
        let ghost given = declarations(self.attributes@);
        let mut files: Vec<&str> = Vec::new();
        let mut i: usize = 0;
        while i < self.attributes.len()
            invariant
                0 <= i <= self.attributes.len(),
                given == declarations(self.attributes@),
                given == self@.attributes,
                first_fault(given, 0) is None,
                texts(files@) + files_from(given, i as int) == files_from(given, 0),
            decreases self.attributes.len() - i,
        {
            assert(given[i as int] == (self.attributes[i as int].0@, self.attributes[i as int].1@));
            proof {
                lemma_no_fault(given, 0, i as int);
            }
            let mut found = self.attributes[i].1.collect_file_arguments();
            proof {
                assert(texts(files@ + found@) =~= texts(files@) + texts(found@));
                assert((texts(files@) + file_refs(given[i as int].1)) + files_from(given, i + 1)
                    =~= texts(files@) + files_from(given, i as int));
            }
            files.append(&mut found);
            i += 1;
        }
        proof {
            assert(texts(files@) =~= files_from(given, 0));
        }
        files
    }

    /// Whether `cache` has the lines of every file that the expressions
    /// name.
    pub fn has_files_in(&self, cache: &FileCache) -> (loaded: bool)
        ensures
            loaded == generator_files_loaded(self@, cache@),
    {
        proof {
            use_type_invariant(self);
        }
        let ghost given = declarations(self.attributes@);
        let mut i: usize = 0;
        while i < self.attributes.len()
            invariant
                0 <= i <= self.attributes.len(),
                given == declarations(self.attributes@),
                given == self@.attributes,
                first_fault(given, 0) is None,
                forall|k: int| 0 <= k < i ==> files_loaded((#[trigger] given[k]).1, cache@),
            decreases self.attributes.len() - i,
        {
            assert(given[i as int] == (self.attributes[i as int].0@, self.attributes[i as int].1@));
            proof {
                lemma_no_fault(given, 0, i as int);
            }
            if !self.attributes[i].1.has_files_in(cache) {
                return false;
            }
            i += 1;
        }
        true
    }

    /// The entry made of `values`, which holds the value of each attribute in
    /// the order of the attributes.
    pub fn assemble(&self, values: &Vec<String>) -> (entry: LdapEntry)
        requires
            values.len() == self@.attributes.len(),
        ensures
            (entry.0@, entry.1.deep_view()) == entry_of(self@, values.deep_view()),
            generator_fault(self@.rdn_attribute, self@.attributes) is None,
            is_rdn_index(self@, rdn_index(self@)),
    {
        proof {
            use_type_invariant(self);
        }
        let ghost given = declarations(self.attributes@);
        let ghost texts = values.deep_view();
        let mut entry: Vec<(String, String)> = Vec::new();
        entry.push(("objectclass".to_owned(), self.object_class.clone()));
        let mut rdn: Option<String> = None;
        let mut i: usize = 0;
        while i < self.attributes.len()
            invariant
                0 <= i <= self.attributes.len(),
                values.len() == self.attributes.len(),
                given == declarations(self.attributes@),
                given == self@.attributes,
                texts == values.deep_view(),
                entry.deep_view() == seq![("objectclass"@, self@.object_class)] + Seq::new(
                    i as nat,
                    |k: int| (given[k].0, texts[k]),
                ),
                match rdn {
                    Some(value) => exists|k: int|
                        0 <= k < i && is_rdn_index(self@, k) && value@ == texts[k],
                    None => forall|k: int| 0 <= k < i ==> (#[trigger] given[k]).0 != self@.rdn_attribute,
                },
            decreases self.attributes.len() - i,
        {
            assert(given[i as int] == (self.attributes[i as int].0@, self.attributes[i as int].1@));
            assert(texts[i as int] == values[i as int]@);
            let value = values[i].clone();
            if rdn.is_none() && self.attributes[i].0 == self.rdn_attribute {
                assert(is_rdn_index(self@, i as int));
                rdn = Some(value.clone());
            }
            let ghost before = entry.deep_view();
            entry.push((self.attributes[i].0.clone(), value));
            proof {
                assert(entry.deep_view() =~= before.push((given[i as int].0, texts[i as int])));
                assert(entry.deep_view() =~= seq![("objectclass"@, self@.object_class)] + Seq::new(
                    (i + 1) as nat,
                    |k: int| (given[k].0, texts[k]),
                ));
            }
            i += 1;
        }
        let mut name = self.rdn_attribute.clone();
        name.append("=");
        match rdn {
            Some(value) => {
                name.append(value.as_str());
            },
            None => {
                proof {
                    assert(declares(given, self@.rdn_attribute));
                    assert(false);
                }
            },
        }
        (name, entry)
    }

    /// Generates an entry: evaluates the expression of every attribute once,
    /// in the order of the attributes, and assembles the values.
    pub fn generate_entry(&self, cache: &FileCache) -> (entry: LdapEntry)
        requires
            generator_files_loaded(self@, cache@),
        ensures
            exists|values: Seq<Seq<char>>| #[trigger]
                yields(self@, cache@, values) && (entry.0@, entry.1.deep_view()) == entry_of(
                    self@,
                    values,
                ),
            generator_fault(self@.rdn_attribute, self@.attributes) is None,
            is_rdn_index(self@, rdn_index(self@)),
    {
        proof {
            use_type_invariant(self);
        }
        let ghost given = declarations(self.attributes@);
        let mut values: Vec<String> = Vec::new();
        let mut i: usize = 0;
        while i < self.attributes.len()
            invariant
                0 <= i <= self.attributes.len(),
                values.len() == i,
                given == declarations(self.attributes@),
                given == self@.attributes,
                first_fault(given, 0) is None,
                generator_files_loaded(self@, cache@),
                forall|k: int|
                    0 <= k < i ==> may_yield((#[trigger] given[k]).1, cache@, values.deep_view()[k]),
            decreases self.attributes.len() - i,
        {
            assert(given[i as int] == (self.attributes[i as int].0@, self.attributes[i as int].1@));
            proof {
                lemma_no_fault(given, 0, i as int);
            }
            let value = self.attributes[i].1.apply(cache);
            let ghost before = values.deep_view();
            values.push(value);
            proof {
                assert(values.deep_view() =~= before.push(value@));
            }
            i += 1;
        }
        let entry = self.assemble(&values);
        proof {
            assert(yields(self@, cache@, values.deep_view()));
        }
        entry
    }
}

/// The first of `generators` that makes entries of `object_class`.
pub fn find_generator<'a>(generators: &'a Vec<EntryGenerator>, object_class: &str) -> (found: Option<
    &'a EntryGenerator,
>)
    ensures
        match found {
            Some(generator) => exists|i: int|
                0 <= i < generators.len() && *generator == #[trigger] generators[i]
                    && generator@.object_class == object_class@ && forall|j: int|
                    0 <= j < i ==> (#[trigger] generators[j])@.object_class != object_class@,
            None => forall|i: int|
                0 <= i < generators.len() ==> (#[trigger] generators[i])@.object_class
                    != object_class@,
        },
{
    let wanted = object_class.to_owned();
    let mut i: usize = 0;
    while i < generators.len()
        invariant
            0 <= i <= generators.len(),
            wanted@ == object_class@,
            forall|j: int| 0 <= j < i ==> (#[trigger] generators[j])@.object_class != object_class@,
        decreases generators.len() - i,
    {
        if generators[i].object_class == wanted {
            return Some(&generators[i]);
        }
        i += 1;
    }
    None
}

/// The distinguished name of the entry `rdn` below `base`.
pub open spec fn qualified(rdn: Seq<char>, base: Seq<char>) -> Seq<char> {
    rdn + ","@ + base
}

/// The distinguished name of the entry `rdn` below `base`.
pub fn qualify(rdn: &str, base: &str) -> (dn: String)
    ensures
        dn@ == qualified(rdn@, base@),
{
    let mut dn = rdn.to_owned();
    dn.append(",");
    dn.append(base);
    dn
}

/// Generates an entry below `base`: the entry that `generator` makes, under
/// its distinguished name.
pub fn generate_entry(base: &str, generator: &EntryGenerator, cache: &FileCache) -> (entry: LdapEntry)
    requires
        generator_files_loaded(generator@, cache@),
    ensures
        exists|values: Seq<Seq<char>>| #[trigger]
            yields(generator@, cache@, values) && entry.0@ == qualified(
                entry_of(generator@, values).0,
                base@,
            ) && entry.1.deep_view() == entry_of(generator@, values).1,
        generator_fault(generator@.rdn_attribute, generator@.attributes) is None,
        is_rdn_index(generator@, rdn_index(generator@)),
{
    let (rdn, attributes) = generator.generate_entry(cache);
    let dn = qualify(rdn.as_str(), base);
    (dn, attributes)
}

} // verus!
