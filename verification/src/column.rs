//! Column definitions: which columns a table has and how each gets its numbers.

use vstd::prelude::*;

verus! {

/// How a column gets its numbers, as contracts see it.
pub enum Formula {
    Number,
    Text,
    MultiplyByFactor(Seq<char>, u64),
    RowSum(Seq<Seq<char>>),
}

/// A column definition, as contracts see it.
pub struct Column {
    pub id: Seq<char>,
    pub caption: Seq<char>,
    pub unit: Seq<char>,
    pub formula: Formula,
}

/// The texts of a list of strings.
pub open spec fn texts(names: Seq<String>) -> Seq<Seq<char>> {
    Seq::new(names.len(), |i: int| names[i]@)
}

/// How a column gets its numbers.
#[derive(Debug, PartialEq)]
pub enum ColumnType {
    /// Numbers that the user enters on rows without children; a row with
    /// children holds the sum over its children.
    Number,
    /// Plain text. Nothing is computed for such a column.
    Text,
    /// The number of the named column in the same row, times the factor.
    MultiplyByFactor(String, u64),
    /// The sum of the named columns in the same row.
    RowSum(Vec<String>),
}

impl View for ColumnType {
    type V = Formula;

    open spec fn view(&self) -> Formula {
        match self {
            ColumnType::Number => Formula::Number,
            ColumnType::Text => Formula::Text,
            ColumnType::MultiplyByFactor(source, factor) => Formula::MultiplyByFactor(
                source@,
                *factor,
            ),
            ColumnType::RowSum(sources) => Formula::RowSum(texts(sources@)),
        }
    }
}

impl ColumnType {
    /// Whether the cells of such a column are entered by the user, not derived:
    /// so for numbers and text. Which of them take a number is said by
    /// `RowData::is_editable`.
    pub fn is_editable(&self) -> (editable: bool)
        ensures
            editable == (self@ is Number || self@ is Text),
    {
        match self {
            ColumnType::Number => true,
            ColumnType::Text => true,
            ColumnType::MultiplyByFactor(_, _) => false,
            ColumnType::RowSum(_) => false,
        }
    }
}

impl Clone for ColumnType {
    /// The formula once more.
    fn clone(&self) -> (copy: ColumnType)
        ensures
            copy@ == self@,
    {
        match self {
            ColumnType::Number => ColumnType::Number,
            ColumnType::Text => ColumnType::Text,
            ColumnType::MultiplyByFactor(source, factor) => ColumnType::MultiplyByFactor(
                source.clone(),
                *factor,
            ),
            ColumnType::RowSum(sources) => {
                let mut names: Vec<String> = Vec::new();
                let mut i: usize = 0;
                while i < sources.len()
                    invariant
                        i <= sources@.len(),
                        names@ == sources@.take(i as int),
                    decreases sources@.len() - i,
                {
                    names.push(sources[i].clone());
                    proof {
                        assert(names@ =~= sources@.take(i + 1));
                    }
                    i += 1;
                }
                proof {
                    assert(sources@.take(i as int) =~= sources@);
                }
                ColumnType::RowSum(names)
            },
        }
    }
}

/// A column: its identity, which stays when the caption changes, what the
/// header shows, and its formula.
#[derive(Debug, PartialEq)]
pub struct ColumnConfig {
    pub id: String,
    pub caption: String,
    pub unit: String,
    pub col_type: ColumnType,
}

impl View for ColumnConfig {
    type V = Column;

    open spec fn view(&self) -> Column {
        Column { id: self.id@, caption: self.caption@, unit: self.unit@, formula: self.col_type@ }
    }
}

impl Clone for ColumnConfig {
    /// The column once more.
    fn clone(&self) -> (copy: ColumnConfig)
        ensures
            copy@ == self@,
    {
        ColumnConfig {
            id: self.id.clone(),
            caption: self.caption.clone(),
            unit: self.unit.clone(),
            col_type: self.col_type.clone(),
        }
    }
}

/// The columns of a schema, in display order.
pub open spec fn columns_of(configs: Seq<ColumnConfig>) -> Seq<Column> {
    Seq::new(configs.len(), |i: int| configs[i]@)
}

/// The column is derived by scaling another one.
pub open spec fn is_scaled(column: Column) -> bool {
    column.formula is MultiplyByFactor
}

/// The column is one that a row with children holds a sum for.
pub open spec fn is_summed(column: Column) -> bool {
    column.formula is Number || column.formula is MultiplyByFactor
}

/// The column that a scaled column reads.
pub open spec fn source_of(column: Column) -> Seq<char> {
    match column.formula {
        Formula::MultiplyByFactor(source, _) => source,
        _ => Seq::empty(),
    }
}

/// The factor of a scaled column.
pub open spec fn factor_of(column: Column) -> u64 {
    match column.formula {
        Formula::MultiplyByFactor(_, factor) => factor,
        _ => 0,
    }
}

/// The text has the form of a hyphenated identifier: 36 characters, a hyphen
/// at each of the places 8, 13, 18 and 23, and a lower-case hexadecimal digit
/// at every other place.
pub open spec fn is_hyphenated_hex(text: Seq<char>) -> bool {
    &&& text.len() == 36
    &&& forall|i: int|
        0 <= i < 36 ==> if i == 8 || i == 13 || i == 18 || i == 23 {
            #[trigger] text[i] == '-'
        } else {
            ('0' <= text[i] <= '9') || ('a' <= text[i] <= 'f')
        }
}

/// The text has the form of a random identifier: hyphenated, with the version
/// digit 4 at place 14 and one of `8`, `9`, `a`, `b` at place 19.
pub open spec fn is_random_identity(text: Seq<char>) -> bool {
    &&& is_hyphenated_hex(text)
    &&& text[14] == '4'
    &&& text[19] == '8' || text[19] == '9' || text[19] == 'a' || text[19] == 'b'
}

/// A new random identity, in text form.
///
/// Calls `Uuid::new_v4` of the crate `uuid` and formats the result with its
/// `Display`, which writes the hyphenated lower-case form. `new_v4` takes 128
/// random bits and sets the version to 4 and the variant to `10`. The value is
/// random, so the contract states its form only; that it differs from the
/// identities made before is not promised. Not verified: the body is believed
/// to do as the contract says. Where the system hands out no random bytes,
/// `new_v4` panics.
#[verifier::external_body]
fn fresh_identity() -> (id: String)
    ensures
        is_random_identity(id@),
{
    uuid::Uuid::new_v4().to_string()
}

impl ColumnConfig {
    /// A number column with the given identity, without a caption, counted in
    /// euros.
    pub fn with_id(id: String) -> (config: ColumnConfig)
        ensures
            config@ == (Column {
                id: id@,
                caption: Seq::empty(),
                unit: "€"@,
                formula: Formula::Number,
            }),
    {
        ColumnConfig {
            id,
            caption: String::new(),
            unit: "€".to_owned(),
            col_type: ColumnType::Number,
        }
    }
}

impl Default for ColumnConfig {
    /// A number column with a new random identity, without a caption, counted
    /// in euros.
    fn default() -> (config: ColumnConfig)
        ensures
            is_random_identity(config@.id),
            config@.caption == Seq::<char>::empty(),
            config@.unit == "€"@,
            config@.formula == Formula::Number,
    {
        ColumnConfig::with_id(fresh_identity())
    }
}

} // verus!
