//! The state of one editing session: the document, the file it belongs to, and
//! whether it holds changes that the file does not.

use crate::codec::{member, read_table, writes_table, LoadError};
use crate::column::Column;
use crate::document::{first_table, Table, TreeTable};
use crate::engine::{arithmetic_of, has_row_sum, is_operation, recomputed, EngineError};
use crate::json::JsonValue;
use vstd::prelude::*;
use vstd::string::StringExecFns;

verus! {

/// A session, as contracts see it.
pub struct Session {
    pub table: Table,
    pub filename: Seq<char>,
    pub file_modified: bool,
    pub close_requested: bool,
    pub show_decimals: bool,
}

/// The state of one editing session.
pub struct TreeTablesApp {
    pub tree_table: TreeTable,
    pub filename: String,
    pub file_modified: bool,
    pub close_requested: bool,
    pub show_decimals: bool,
}

impl View for TreeTablesApp {
    type V = Session;

    open spec fn view(&self) -> Session {
        Session {
            table: self.tree_table@,
            filename: self.filename@,
            file_modified: self.file_modified,
            close_requested: self.close_requested,
            show_decimals: self.show_decimals,
        }
    }
}

/// The session that a first run starts with: the built-in document, not yet
/// written to the file that it names.
pub open spec fn first_session(show_decimals: bool) -> Session {
    Session {
        table: first_table(),
        filename: "unnamed.tt"@,
        file_modified: true,
        close_requested: false,
        show_decimals,
    }
}

/// The extension of document files.
pub open spec fn primary_extension() -> Seq<char> {
    "tt"@
}

/// The text is a file name and nothing else: not empty, not `.` and not `..`,
/// and without a slash, a backslash or a colon. Such a text names a file on
/// every system.
pub open spec fn is_plain_name(text: Seq<char>) -> bool {
    &&& text.len() > 0
    &&& text != seq!['.']
    &&& text != seq!['.', '.']
    &&& forall|i: int|
        0 <= i < text.len() ==> #[trigger] text[i] != '/' && text[i] != '\\' && text[i] != ':'
}

/// The place of the last dot in the text; -1 where it has none.
pub open spec fn last_dot(text: Seq<char>) -> int
    decreases text.len(),
{
    if text.len() == 0 {
        -1
    } else if text.last() == '.' {
        text.len() - 1
    } else {
        last_dot(text.drop_last())
    }
}

/// A file name without its extension: the text before its last dot, or the
/// whole text where it has no dot or none but a first one.
pub open spec fn stem_of(text: Seq<char>) -> Seq<char> {
    if last_dot(text) <= 0 {
        text
    } else {
        text.take(last_dot(text))
    }
}

/// `out` is a beginning of `path`, then a dot, then the extension.
pub open spec fn is_beginning_with_extension(
    path: Seq<char>,
    extension: Seq<char>,
    out: Seq<char>,
) -> bool {
    exists|k: int|
        0 <= k <= path.len() && out == #[trigger] path.take(k) + seq!['.'] + extension
}

/// The extensions of the files that the dialogs for opening and saving offer:
/// the primary one first, then the general one of the format.
pub fn file_extensions() -> (list: Vec<&'static str>)
    ensures
        list@.len() == 3,
        list@[0]@ == primary_extension(),
        list@[1]@ == "json"@,
        list@[2]@ == "ttable"@,
{
    let mut list: Vec<&'static str> = Vec::new();
    list.push("tt");
    list.push("json");
    list.push("ttable");
    list
}

/// Sets the extension of a path.
///
/// Calls `PathBuf::set_extension` of std on the path that the text names, and
/// hands back what the call returned together with the path as text. As std
/// documents the call: where the path has no file name it returns `false` and
/// does nothing; otherwise it returns `true`, and the extension is added where
/// the file name had none and put in the place of the one it had, which is
/// what follows the last dot of the file name unless that dot is its first
/// character. Which part of a text is the file name depends on the system; a
/// plain name is the file name on every one. The call panics on an extension
/// that holds a path separator. Not verified: the body is believed to do as
/// the contract says.
#[verifier::external_body]
fn set_extension(path: &str, extension: &str) -> (out: (bool, String))
    requires
        extension@.len() > 0,
        forall|i: int|
            0 <= i < extension@.len() ==> #[trigger] extension@[i] != '/' && extension@[i] != '\\',
    ensures
        !out.0 ==> out.1@ == path@,
        out.0 ==> is_beginning_with_extension(path@, extension@, out.1@),
        is_plain_name(path@) ==> out.0 && out.1@ == stem_of(path@) + seq!['.'] + extension@,
{
    let mut buffer = std::path::PathBuf::from(path);
    let changed = buffer.set_extension(extension);
    (changed, buffer.to_string_lossy().into_owned())
}

/// The path with its extension set to that of document files; none where the
/// path names no file. A plain file name always names one, and comes back with
/// `tt` behind its stem.
pub fn with_primary_extension(path: &str) -> (out: Option<String>)
    ensures
        out is Some ==> is_beginning_with_extension(path@, primary_extension(), out->Some_0@),
        is_plain_name(path@) ==> out is Some && out->Some_0@ == stem_of(path@) + seq!['.']
            + primary_extension(),
{
    proof {
        reveal_strlit("tt");
    }
    let (named, target) = set_extension(path, "tt");
    if named {
        Some(target)
    } else {
        None
    }
}

impl Default for TreeTablesApp {
    /// The session that a first run starts with, showing whole numbers.
    fn default() -> (app: TreeTablesApp)
        ensures
            app@ == first_session(false),
    {
        TreeTablesApp {
            tree_table: TreeTable::default(),
            filename: "unnamed.tt".to_owned(),
            file_modified: true,
            close_requested: false,
            show_decimals: false,
        }
    }
}

impl TreeTablesApp {
    /// The session at start: the built-in document, with the display setting
    /// that an earlier run has kept, if there is one.
    pub fn new(kept: Option<bool>) -> (app: TreeTablesApp)
        ensures
            app@ == first_session(
                match kept {
                    Some(show_decimals) => show_decimals,
                    None => false,
                },
            ),
    {
        let mut app = TreeTablesApp::default();
        match kept {
            Some(show_decimals) => {
                app.show_decimals = show_decimals;
            },
            None => {},
        }
        app
    }

    /// Brings the derived cells up to date, as is done before each display.
    /// Whether the document counts as modified does not change.
    pub fn refresh<A: Fn(u64, u64) -> u64, M: Fn(u64, u64) -> u64>(
        &mut self,
        plus: &A,
        times: &M,
    ) -> (outcome: Result<(), EngineError>)
        requires
            is_operation(plus),
            is_operation(times),
        ensures
            outcome == (if has_row_sum(old(self)@.table.columns) {
                Err::<(), EngineError>(EngineError::UnimplementedFormula)
            } else {
                Ok(())
            }),
            final(self)@ == (Session {
                table: Table {
                    title: old(self)@.table.title,
                    columns: old(self)@.table.columns,
                    root: if has_row_sum(old(self)@.table.columns) {
                        old(self)@.table.root
                    } else {
                        recomputed(
                            arithmetic_of(plus, times),
                            old(self)@.table.root,
                            old(self)@.table.columns,
                        )
                    },
                },
                filename: old(self)@.filename,
                file_modified: old(self)@.file_modified,
                close_requested: old(self)@.close_requested,
                show_decimals: old(self)@.show_decimals,
            }),
    {
        self.tree_table.recompute(plus, times)
    }

    /// Takes note of what an edit of the document reported: once an edit was
    /// dirty, the document counts as modified until it is written or replaced.
    pub fn note(&mut self, dirty: bool)
        ensures
            final(self)@ == (Session {
                table: old(self)@.table,
                filename: old(self)@.filename,
                file_modified: old(self)@.file_modified || dirty,
                close_requested: old(self)@.close_requested,
                show_decimals: old(self)@.show_decimals,
            }),
    {
        if dirty {
            self.file_modified = true;
        }
    }

    /// Opens what was read from the file at `path`. A readable value replaces
    /// the document as a whole, and the session then belongs to that file and
    /// holds no changes. An unreadable value is refused, and the session stays
    /// as it is. A value that a document was written as installs that document.
    pub fn open(&mut self, path: &str, json: &JsonValue) -> (outcome: Result<(), LoadError>)
        ensures
            match read_table(json@) {
                Some(table) => outcome == Ok::<(), LoadError>(()) && final(self)@ == (Session {
                    table: table,
                    filename: path@,
                    file_modified: false,
                    close_requested: old(self)@.close_requested,
                    show_decimals: old(self)@.show_decimals,
                }),
                None => outcome == Err::<(), LoadError>(LoadError::CorruptFile) && final(self)@
                    == old(self)@,
            },
            json@ is Object && member(json@->Object_0, "column_configs"@) is None && outcome is Ok
                ==> final(self)@.table.columns == Seq::<Column>::empty(),
            forall|written: Table| #[trigger]
                writes_table(json@, written) ==> outcome is Ok && final(self)@.table == written,
    {
        match TreeTable::from_json(json) {
            Ok(table) => {
                self.tree_table = table;
                self.filename = path.to_owned();
                self.file_modified = false;
                Ok(())
            },
            Err(e) => Err(e),
        }
    }

    /// The user chose `path` in "save as": the session from now on belongs to
    /// the file at that path with its extension set to `tt`. The answer says
    /// whether the path names a file; where it does not, it is taken as it
    /// came. Nothing is written by this, and the document stays as it is.
    pub fn save_as(&mut self, path: &str) -> (named: bool)
        ensures
            named ==> is_beginning_with_extension(
                path@,
                primary_extension(),
                final(self)@.filename,
            ),
            !named ==> final(self)@.filename == path@,
            is_plain_name(path@) ==> named && final(self)@.filename == stem_of(path@) + seq!['.']
                + primary_extension(),
            final(self)@ == (Session {
                table: old(self)@.table,
                filename: final(self)@.filename,
                file_modified: old(self)@.file_modified,
                close_requested: old(self)@.close_requested,
                show_decimals: old(self)@.show_decimals,
            }),
    {
        match with_primary_extension(path) {
            Some(target) => {
                self.set_filename(target.as_str());
                true
            },
            None => {
                self.set_filename(path);
                false
            },
        }
    }

    /// Makes the session belong to the file at `path`.
    pub fn set_filename(&mut self, path: &str)
        ensures
            final(self)@ == (Session {
                table: old(self)@.table,
                filename: path@,
                file_modified: old(self)@.file_modified,
                close_requested: old(self)@.close_requested,
                show_decimals: old(self)@.show_decimals,
            }),
    {
        self.filename = path.to_owned();
    }

    /// Takes note of how writing the document to its file ended. After a
    /// complete write the document holds no changes; after a failed one it
    /// stays as it is, changes and all.
    pub fn saved(&mut self, written: bool)
        ensures
            final(self)@ == (Session {
                table: old(self)@.table,
                filename: old(self)@.filename,
                file_modified: old(self)@.file_modified && !written,
                close_requested: old(self)@.close_requested,
                show_decimals: old(self)@.show_decimals,
            }),
    {
        if written {
            self.file_modified = false;
        }
    }

    /// The user asked to close the window. The answer says whether closing has
    /// to wait for the user's word on the changes that the file does not hold.
    pub fn request_close(&mut self) -> (wait: bool)
        ensures
            wait == old(self)@.file_modified,
            final(self)@ == (Session {
                table: old(self)@.table,
                filename: old(self)@.filename,
                file_modified: old(self)@.file_modified,
                close_requested: true,
                show_decimals: old(self)@.show_decimals,
            }),
    {
        self.close_requested = true;
        self.file_modified
    }

    /// The user gave up the changes that the file does not hold.
    pub fn discard_changes(&mut self)
        ensures
            final(self)@ == (Session {
                table: old(self)@.table,
                filename: old(self)@.filename,
                file_modified: false,
                close_requested: old(self)@.close_requested,
                show_decimals: old(self)@.show_decimals,
            }),
    {
        self.file_modified = false;
    }

    /// What the window shows for the file: its name, with a star behind it
    /// while the document holds changes that the file does not.
    pub fn file_label(&self) -> (label: String)
        ensures
            label@ == (if self@.file_modified {
                self@.filename + "*"@
            } else {
                self@.filename
            }),
    {
        let label = self.filename.clone();
        if self.file_modified {
            label.concat("*")
        } else {
            label
        }
    }
}

} // verus!
