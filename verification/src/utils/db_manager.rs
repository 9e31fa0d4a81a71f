//! The statements that are sent to the store.
//!
//! The store keeps one table with the columns `id`, `directory_name` and
//! `current_number`. A statement names the table in its text; the directory
//! name and the counter never enter the text: they are bound to its
//! placeholders, in the order in which the placeholders stand.

use vstd::prelude::*;
use vstd::string::StringExecFns;

verus! {

/// A value bound to a placeholder of a statement.
#[derive(Debug, Clone, PartialEq, Eq)]
pub enum Bind {
    /// A text.
    Text(String),
    /// A number.
    Number(i64),
}

/// What a bound value is.
pub enum BindView {
    Text(Seq<char>),
    Number(i64),
}

impl View for Bind {
    type V = BindView;

    open spec fn view(&self) -> BindView {
        match self {
            Bind::Text(text) => BindView::Text(text@),
            Bind::Number(number) => BindView::Number(*number),
        }
    }
}

/// A statement: its text, with one `?` for each bound value, and the values
/// in the order of their placeholders.
#[derive(Debug, Clone, PartialEq, Eq)]
pub struct Statement {
    pub sql: String,
    pub binds: Vec<Bind>,
}

/// What a statement is.
pub struct StatementView {
    pub sql: Seq<char>,
    pub binds: Seq<BindView>,
}

impl View for Statement {
    type V = StatementView;

    open spec fn view(&self) -> StatementView {
        StatementView { sql: self.sql@, binds: self.binds@.map_values(|bind: Bind| bind@) }
    }
}

/// Whether `c` may begin the name of a table: an ASCII letter or an
/// underscore.
pub open spec fn is_name_start(c: char) -> bool {
    ('a' <= c && c <= 'z') || ('A' <= c && c <= 'Z') || c == '_'
}

/// Whether `c` may stand in the name of a table: an ASCII letter, an ASCII
/// digit or an underscore.
pub open spec fn is_name_char(c: char) -> bool {
    is_name_start(c) || ('0' <= c && c <= '9')
}

/// Whether `s` is a plain identifier: not empty, made of ASCII letters, ASCII
/// digits and underscores, and not beginning with a digit.
pub open spec fn is_identifier(s: Seq<char>) -> bool {
    s.len() > 0 && is_name_start(s[0]) && forall|i: int|
        0 <= i < s.len() ==> is_name_char(#[trigger] s[i])
}

/// The statement that reads the row kept under `dir_name`.
pub open spec fn select_statement(table: Seq<char>, dir_name: Seq<char>) -> StatementView {
    StatementView {
        sql: "SELECT id, directory_name, current_number FROM "@ + table
            + " WHERE directory_name = ?"@,
        binds: seq![BindView::Text(dir_name)],
    }
}

/// The statement that writes `current_number` into the row kept under
/// `dir_name`.
pub open spec fn update_statement(
    table: Seq<char>,
    dir_name: Seq<char>,
    current_number: i64,
) -> StatementView {
    StatementView {
        sql: "UPDATE "@ + table + " SET current_number = ? WHERE directory_name = ?"@,
        binds: seq![BindView::Number(current_number), BindView::Text(dir_name)],
    }
}

/// The statement that adds a row for `dir_name` with `current_number`, unless
/// a row is kept under that name already.
pub open spec fn insert_statement(
    table: Seq<char>,
    dir_name: Seq<char>,
    current_number: i64,
) -> StatementView {
    StatementView {
        sql: "INSERT INTO "@ + table
            + " (directory_name, current_number) SELECT ?, ? WHERE NOT EXISTS (SELECT 1 FROM "@
            + table + " WHERE directory_name = ?)"@,
        binds: seq![
            BindView::Text(dir_name),
            BindView::Number(current_number),
            BindView::Text(dir_name),
        ],
    }
}

/// Whether `name` is a plain identifier.
pub fn identifier(name: &str) -> (r: bool)
    ensures
        r == is_identifier(name@),
{
    let len = name.unicode_len();
    if len == 0 {
        return false;
    }
    let first = name.get_char(0);
    if !((first >= 'a' && first <= 'z') || (first >= 'A' && first <= 'Z') || first == '_') {
        return false;
    }
    let mut i: usize = 1;
    while i < len
        invariant
            1 <= i <= len,
            len == name@.len(),
            is_name_start(name@[0]),
            forall|j: int| 0 <= j < i ==> is_name_char(#[trigger] name@[j]),
        decreases len - i,
    {
        let c = name.get_char(i);
        if !((c >= 'a' && c <= 'z') || (c >= 'A' && c <= 'Z') || c == '_' || (c >= '0' && c
            <= '9')) {
            assert(!is_name_char(name@[i as int]));
            return false;
        }
        i += 1;
    }
    true
}

/// The statements for one row of one table.
pub struct Handler<'a> {
    table_name: &'a str,
    dir_name: &'a str,
}

impl<'a> Handler<'a> {
    #[verifier::type_invariant]
    spec fn named_plainly(self) -> bool {
        is_identifier(self.table_name@)
    }

    /// The name of the table.
    pub closed spec fn table(self) -> Seq<char> {
        self.table_name@
    }

    /// The directory name under which the row is kept.
    pub closed spec fn key(self) -> Seq<char> {
        self.dir_name@
    }

    /// A handler for the row of `dir_name` in the table `table_name`. The
    /// name of a table stands in the text of every statement, so there is a
    /// handler only for a name that is a plain identifier.
    pub fn new(table_name: &'a str, dir_name: &'a str) -> (r: Option<Handler<'a>>)
        ensures
            r is Some <==> is_identifier(table_name@),
            r matches Some(handler) ==> handler.table() == table_name@ && handler.key()
                == dir_name@,
    {
        if identifier(table_name) {
            Some(Handler { table_name, dir_name })
        } else {
            None
        }
    }

    /// The statement that reads the row.
    pub fn get(&self) -> (r: Statement)
        ensures
            r@ == select_statement(self.table(), self.key()),
            is_identifier(self.table()),
    {
        proof {
            use_type_invariant(self);
        }
        let mut sql = String::from_str("SELECT id, directory_name, current_number FROM ");
        sql.append(self.table_name);
        sql.append(" WHERE directory_name = ?");
        let mut binds: Vec<Bind> = Vec::new();
        binds.push(Bind::Text(String::from_str(self.dir_name)));
        let r = Statement { sql, binds };
        assert(r@.binds =~= select_statement(self.table(), self.key()).binds);
        r
    }

    /// The statement that writes `current_number` into the row. Where no row
    /// is kept under the name it changes nothing.
    pub fn update(&self, current_number: i64) -> (r: Statement)
        ensures
            r@ == update_statement(self.table(), self.key(), current_number),
            is_identifier(self.table()),
    {
        proof {
            use_type_invariant(self);
        }
        let mut sql = String::from_str("UPDATE ");
        sql.append(self.table_name);
        sql.append(" SET current_number = ? WHERE directory_name = ?");
        let mut binds: Vec<Bind> = Vec::new();
        binds.push(Bind::Number(current_number));
        binds.push(Bind::Text(String::from_str(self.dir_name)));
        let r = Statement { sql, binds };
        assert(r@.binds =~= update_statement(self.table(), self.key(), current_number).binds);
        r
    }

    /// The statement that adds the row with `current_number`, unless a row is
    /// kept under the name already.
    pub fn insert(&self, current_number: i64) -> (r: Statement)
        ensures
            r@ == insert_statement(self.table(), self.key(), current_number),
            is_identifier(self.table()),
    {
        proof {
            use_type_invariant(self);
        }
        let mut sql = String::from_str("INSERT INTO ");
        sql.append(self.table_name);
        sql.append(
            " (directory_name, current_number) SELECT ?, ? WHERE NOT EXISTS (SELECT 1 FROM ",
        );
        sql.append(self.table_name);
        sql.append(" WHERE directory_name = ?)");
        let mut binds: Vec<Bind> = Vec::new();
        binds.push(Bind::Text(String::from_str(self.dir_name)));
        binds.push(Bind::Number(current_number));
        binds.push(Bind::Text(String::from_str(self.dir_name)));
        let r = Statement { sql, binds };
        assert(r@.binds =~= insert_statement(self.table(), self.key(), current_number).binds);
        r
    }
}

} // verus!
