//! The field catalog: which columns each category has, and how the external
//! decoding tool is started.
//!
//! The catalog is built once at startup and only read afterwards.

use vstd::hash_map::StringHashMap;
use vstd::prelude::*;

verus! {

/// One output column: the header cell and the expression that makes the
/// decoding tool emit the column's values. The expression is passed on
/// verbatim; nothing in it is checked.
#[derive(Debug, PartialEq, Eq)]
pub struct Field {
    pub key: String,
    pub value: String,
}

/// What a [`Field`] stands for in contracts.
pub struct FieldView {
    pub name: Seq<char>,
    pub expression: Seq<char>,
}

impl View for Field {
    type V = FieldView;

    open spec fn view(&self) -> FieldView {
        FieldView { name: self.key@, expression: self.value@ }
    }
}

impl DeepView for Field {
    type V = FieldView;

    open spec fn deep_view(&self) -> FieldView {
        self@
    }
}

impl Field {
    pub fn new(key: String, value: String) -> (field: Field)
        ensures
            field@ == (FieldView { name: key@, expression: value@ }),
    {
        Field { key, value }
    }
}

/// How the decoding tool is started: its path and the parameters that every
/// invocation gets.
#[derive(Debug, PartialEq, Eq)]
pub struct Tshark {
    pub path: String,
    pub parameters: Vec<String>,
}

/// What a [`Tshark`] stands for in contracts.
pub struct TsharkView {
    pub path: Seq<char>,
    pub parameters: Seq<Seq<char>>,
}

impl View for Tshark {
    type V = TsharkView;

    open spec fn view(&self) -> TsharkView {
        TsharkView { path: self.path@, parameters: self.parameters.deep_view() }
    }
}

impl Tshark {
    pub fn new(path: String, parameters: Vec<String>) -> (tool: Tshark)
        ensures
            tool@ == (TsharkView { path: path@, parameters: parameters.deep_view() }),
    {
        Tshark { path, parameters }
    }
}

/// The loaded configuration: the tool settings and, for each category, its
/// columns in the order in which they were loaded.
pub struct Config {
    tshark: Tshark,
    categories: StringHashMap<Vec<Field>>,
}

impl Config {
    /// The tool settings.
    pub closed spec fn tool(&self) -> TsharkView {
        self.tshark@
    }

    /// The columns of each known category, by category identifier.
    pub closed spec fn catalog(&self) -> Map<Seq<char>, Seq<FieldView>> {
        Map::new(
            |category: Seq<char>| self.categories@.contains_key(category),
            |category: Seq<char>| self.categories@[category].deep_view(),
        )
    }

    /// A configuration with the given tool settings and no category yet.
    pub fn new(tshark: Tshark) -> (config: Config)
        ensures
            config.tool() == tshark@,
            config.catalog() == Map::<Seq<char>, Seq<FieldView>>::empty(),
    {
        let config = Config { tshark, categories: StringHashMap::new() };
        assert(config.catalog() =~= Map::<Seq<char>, Seq<FieldView>>::empty());
        config
    }

    /// Registers the columns of a category, replacing what the category had
    /// before. The order of `fields` is kept: it is the order of the output
    /// columns.
    pub fn add_category(&mut self, category: String, fields: Vec<Field>)
        ensures
            final(self).tool() == old(self).tool(),
            final(self).catalog() == old(self).catalog().insert(category@, fields.deep_view()),
    {
        self.categories.insert(category, fields);
        assert(self.catalog() =~= old(self).catalog().insert(category@, fields.deep_view()));
    }

    /// The tool settings.
    pub fn tshark(&self) -> (tool: &Tshark)
        ensures
            tool@ == self.tool(),
    {
        &self.tshark
    }

    /// Whether the catalog knows the category.
    pub fn has_category(&self, category: &str) -> (known: bool)
        ensures
            known == self.catalog().contains_key(category@),
    {
        self.categories.contains_key(category)
    }

    /// The columns of a category, or `None` where the catalog does not know
    /// the category.
    pub fn fields_of(&self, category: &str) -> (found: Option<&Vec<Field>>)
        ensures
            found is Some <==> self.catalog().contains_key(category@),
            found matches Some(fields) ==> fields.deep_view() == self.catalog()[category@],
    {
        self.categories.get(category)
    }
}

} // verus!
