//! The command interpreter.
use vstd::prelude::*;
use crate::table::{
    database_wf, lookup, put, append_value, sorted_keys, lemma_count_below, Column,
    ColumnView, DataType, Database, Table, TableView, Value,
};
use crate::text::{int_text, parse_i32, parse_i32_spec, push_int, split_words, tokens, views};

verus! {

/// The text that `{:?}` gives for a string: quoted, with escapes.
pub uninterp spec fn debug_str_of(s: Seq<char>) -> Seq<char>;

/// Relies on the `Debug` impl of `str`, whose output depends on the
/// characters alone.
#[verifier::external_body]
fn debug_quoted(s: &str) -> (r: String)
    ensures
        r@ == debug_str_of(s@),
{
    format!("{:?}", s)
}

/// How a value is shown by `select`.
pub open spec fn render_value(v: Value) -> Seq<char> {
    match v {
        Value::Text(s) => "String("@ + debug_str_of(s) + ")"@,
        Value::Int(n) => "Integer32("@ + int_text(n as int) + ")"@,
        Value::Float(t) => "Float32("@ + t + ")"@,
    }
}

/// The values, each rendered, separated by `", "`.
pub open spec fn render_items(vs: Seq<Value>) -> Seq<char>
    decreases vs.len(),
{
    if vs.len() == 0 {
        seq![]
    } else if vs.len() == 1 {
        render_value(vs[0])
    } else {
        render_items(vs.drop_last()) + ", "@ + render_value(vs.last())
    }
}

/// One line of `select` output: the column name and its values in brackets.
pub open spec fn render_line(c: ColumnView) -> Seq<char> {
    c.0 + ": ["@ + render_items(c.1) + "]\n"@
}

/// One line per column, in the order given.
pub open spec fn render_columns(cols: Seq<ColumnView>) -> Seq<char>
    decreases cols.len(),
{
    if cols.len() == 0 {
        seq![]
    } else {
        render_columns(cols.drop_last()) + render_line(cols.last())
    }
}

/// The words joined with nothing between them.
pub open spec fn join_words(ws: Seq<Seq<char>>) -> Seq<char>
    decreases ws.len(),
{
    if ws.len() == 0 {
        seq![]
    } else {
        join_words(ws.drop_last()) + ws.last()
    }
}

/// How the raw text of an insert becomes a value: an integer if it reads as
/// one, else a float if `float_text` (the text of the float it reads as)
/// is given, else the text itself.
pub open spec fn classify(raw: Seq<char>, float_text: Option<Seq<char>>) -> Value {
    match parse_i32_spec(raw) {
        Some(n) => Value::Int(n),
        None => match float_text {
            Some(t) => Value::Float(t),
            None => Value::Text(raw),
        },
    }
}

pub open spec fn table_not_found(t: Seq<char>) -> Seq<char> {
    "Table "@ + t + " not found"@
}

/// The reply of `select` on table `t`, for one column or for all.
pub open spec fn select_reply(d: Seq<TableView>, t: Seq<char>, column: Option<Seq<char>>) -> Seq<char> {
    match lookup(d, t) {
        None => table_not_found(t),
        Some(cols) => match column {
            Some(c) => match lookup(cols, c) {
                Some(vs) => render_line((c, vs)),
                None => "Column "@ + c + " not found in table "@ + t,
            },
            None => render_columns(cols),
        },
    }
}

/// What a command leaves to do, as mathematical values.
pub enum StepView {
    Reply(Seq<char>),
    Insert(Seq<char>, Seq<char>, Seq<char>),
    Save(Seq<char>),
    Load(Seq<char>),
}

/// What is left of a command once the interpreter has done its part.
pub enum Step {
    /// The command is done and this is its reply.
    Reply(String),
    /// An insert into a table that exists: the caller says whether `raw`
    /// reads as a 32-bit float and hands it to [`finish_insert`].
    Insert { table: String, column: String, raw: String },
    /// The caller writes the collection to `file` and hands the outcome to
    /// [`finish_save`].
    Save { file: String },
    /// The caller reads a collection from `file` and hands it to
    /// [`finish_load`].
    Load { file: String },
}

impl View for Step {
    type V = StepView;

    open spec fn view(&self) -> StepView {
        match self {
            Step::Reply(s) => StepView::Reply(s@),
            Step::Insert { table, column, raw } => StepView::Insert(table@, column@, raw@),
            Step::Save { file } => StepView::Save(file@),
            Step::Load { file } => StepView::Load(file@),
        }
    }
}

/// The collection after the command of words `w`, and what is left to do.
pub open spec fn step_spec(d: Seq<TableView>, w: Seq<Seq<char>>) -> (Seq<TableView>, StepView) {
    if w.len() == 0 {
        (d, StepView::Reply("Please specify a command"@))
    } else if w[0] == "create"@ {
        if w.len() < 2 {
            (d, StepView::Reply("Usage: create <table_name>"@))
        } else {
            (put(d, w[1], Seq::<ColumnView>::empty()), StepView::Reply("Table "@ + w[1] + " created"@))
        }
    } else if w[0] == "insert"@ {
        if w.len() < 4 {
            (d, StepView::Reply("Usage: insert <table_name> <column_name> <value>"@))
        } else if lookup(d, w[1]) is None {
            (d, StepView::Reply(table_not_found(w[1])))
        } else {
            (d, StepView::Insert(w[1], w[2], join_words(w.skip(3))))
        }
    } else if w[0] == "select"@ {
        if w.len() < 2 {
            (d, StepView::Reply("Usage: select <table_name> <column>"@))
        } else {
            (d, StepView::Reply(select_reply(d, w[1], if w.len() == 3 { Some(w[2]) } else { None })))
        }
    } else if w[0] == "save"@ {
        if w.len() < 2 {
            (d, StepView::Reply("Usage: save <file_name>"@))
        } else {
            (d, StepView::Save(w[1]))
        }
    } else if w[0] == "load"@ {
        if w.len() < 2 {
            (d, StepView::Reply("Usage: load <file_name>"@))
        } else {
            (d, StepView::Load(w[1]))
        }
    } else {
        (d, StepView::Reply("Unknown Command"@))
    }
}

fn word_is(w: &String, lit: &str) -> (r: bool)
    ensures
        r == (w@ == lit@),
{
    *w == lit.to_string()
}

/// The text inside `String(..)` for a value whose quoted form is `quoted`.
pub fn text_value_rendering(quoted: &str) -> (r: String)
    ensures
        r@ == "String("@ + quoted@ + ")"@,
{
    let mut r = "String(".to_string();
    r.append(quoted);
    r.append(")");
    r
}

fn push_value(out: &mut String, v: &DataType)
    ensures
        final(out)@ == old(out)@ + render_value(v@),
{
    match v {
        DataType::String(s) => {
            let q = debug_quoted(s.as_str());
            out.append(text_value_rendering(q.as_str()).as_str());
        },
        DataType::Integer32(n) => {
            out.append("Integer32(");
            push_int(out, *n);
            out.append(")");
        },
        DataType::Float32(t) => {
            out.append("Float32(");
            out.append(t.as_str());
            out.append(")");
        },
    }
    assert(final(out)@ =~= old(out)@ + render_value(v@));
}

fn push_line(out: &mut String, c: &Column)
    ensures
        final(out)@ == old(out)@ + render_line(c@),
{
    let ghost vs = c@.1;
    out.append(c.name.as_str());
    out.append(": [");
    let ghost start = out@;
    let mut i: usize = 0;
    while i < c.values.len()
        invariant
            vs == c@.1,
            i <= vs.len(),
            out@ == start + render_items(vs.take(i as int)),
        decreases c.values.len() - i,
    {
        let ghost p = vs.take(i + 1);
        assert(p.drop_last() =~= vs.take(i as int));
        if i > 0 {
            out.append(", ");
        }
        push_value(out, &c.values[i]);
        proof {
            if i == 0 {
                assert(render_items(vs.take(0)) =~= Seq::<char>::empty());
                assert(render_items(p) == render_value(p[0]));
            }
        }
        assert(out@ =~= start + render_items(p));
        i += 1;
    }
    assert(vs.take(vs.len() as int) =~= vs);
    out.append("]\n");
    assert(final(out)@ =~= old(out)@ + render_line(c@));
}

fn render_table(t: &Table) -> (r: String)
    ensures
        r@ == render_columns(t@.1),
{
    let ghost cols = t@.1;
    let mut out = String::new();
    let mut i: usize = 0;
    while i < t.columns.len()
        invariant
            cols == t@.1,
            i <= cols.len(),
            out@ == render_columns(cols.take(i as int)),
        decreases t.columns.len() - i,
    {
        assert(cols.take(i + 1).drop_last() =~= cols.take(i as int));
        push_line(&mut out, &t.columns[i]);
        i += 1;
    }
    assert(cols.take(cols.len() as int) =~= cols);
    out
}

fn table_not_found_reply(t: &str) -> (r: String)
    ensures
        r@ == table_not_found(t@),
{
    let mut r = "Table ".to_string();
    r.append(t);
    r.append(" not found");
    r
}

fn select(db: &Database, t: &String, column: Option<&String>) -> (r: String)
    requires
        database_wf(db@),
    ensures
        r@ == select_reply(db@, t@, match column { Some(c) => Some(c@), None => None }),
{
    let (i, found) = db.find_table(t.as_str());
    if !found {
        return table_not_found_reply(t.as_str());
    }
    proof {
        lemma_count_below(db@, t@);
    }
    let table = &db.tables[i];
    assert(table@ == db@[i as int]);
    assert(sorted_keys(table@.1)) by {
        assert(crate::table::table_wf((db@[i as int].0, db@[i as int].1)));
    }
    match column {
        Some(c) => {
            let (j, has) = table.find_column(c.as_str());
            if has {
                proof {
                    lemma_count_below(table@.1, c@);
                }
                let mut r = String::new();
                push_line(&mut r, &table.columns[j]);
                assert(r@ =~= render_line((c@, lookup(table@.1, c@)->Some_0)));
                r
            } else {
                let mut r = "Column ".to_string();
                r.append(c.as_str());
                r.append(" not found in table ");
                r.append(t.as_str());
                r
            }
        },
        None => render_table(table),
    }
}

/// Runs the part of `command` that needs neither the file system nor float
/// arithmetic, and says what is left.
pub fn handle_command(command: &str, db: &mut Database) -> (r: Step)
    requires
        database_wf(old(db)@),
    ensures
        (final(db)@, r@) == step_spec(old(db)@, tokens(command@)),
        database_wf(final(db)@),
{
    let parts = split_words(command);
    let ghost w = tokens(command@);
    assert(views(parts@) == w);
    assert(forall|k: int| 0 <= k < parts@.len() ==> #[trigger] parts@[k]@ == w[k]);
    if parts.len() == 0 {
        return Step::Reply("Please specify a command".to_string());
    }
    let n = parts.len();
    if word_is(&parts[0], "create") {
        if n < 2 {
            return Step::Reply("Usage: create <table_name>".to_string());
        }
        db.create_table(parts[1].clone());
        let mut r = "Table ".to_string();
        r.append(parts[1].as_str());
        r.append(" created");
        Step::Reply(r)
    } else if word_is(&parts[0], "insert") {
        if n < 4 {
            return Step::Reply("Usage: insert <table_name> <column_name> <value>".to_string());
        }
        if !db.contains_table(parts[1].as_str()) {
            return Step::Reply(table_not_found_reply(parts[1].as_str()));
        }
        let mut raw = String::new();
        let mut k: usize = 3;
        while k < n
            invariant
                n == parts@.len(),
                3 <= k <= n,
                views(parts@) == w,
                raw@ == join_words(w.subrange(3, k as int)),
            decreases n - k,
        {
            assert(w.subrange(3, k + 1).drop_last() =~= w.subrange(3, k as int));
            assert(parts@[k as int]@ == w[k as int]);
            raw.append(parts[k].as_str());
            k += 1;
        }
        assert(w.subrange(3, n as int) =~= w.skip(3));
        Step::Insert { table: parts[1].clone(), column: parts[2].clone(), raw }
    } else if word_is(&parts[0], "select") {
        if n < 2 {
            return Step::Reply("Usage: select <table_name> <column>".to_string());
        }
        let column = if n == 3 {
            Some(&parts[2])
        } else {
            None
        };
        Step::Reply(select(db, &parts[1], column))
    } else if word_is(&parts[0], "save") {
        if n < 2 {
            return Step::Reply("Usage: save <file_name>".to_string());
        }
        Step::Save { file: parts[1].clone() }
    } else if word_is(&parts[0], "load") {
        if n < 2 {
            return Step::Reply("Usage: load <file_name>".to_string());
        }
        Step::Load { file: parts[1].clone() }
    } else {
        Step::Reply("Unknown Command".to_string())
    }
}

/// Classifies the raw text of an insert. `float_text` is the text of the
/// 32-bit float that `raw` reads as, or `None` where it reads as none.
pub fn classify_value(raw: String, float_text: Option<String>) -> (r: DataType)
    ensures
        r@ == classify(raw@, match float_text { Some(t) => Some(t@), None => None }),
{
    match parse_i32(raw.as_str()) {
        Some(n) => DataType::Integer32(n),
        None => match float_text {
            Some(t) => DataType::Float32(t),
            None => DataType::String(raw),
        },
    }
}

/// Completes an insert of `raw` into column `column` of table `table`.
pub fn finish_insert(
    db: &mut Database,
    table: &str,
    column: String,
    raw: String,
    float_text: Option<String>,
) -> (r: String)
    requires
        database_wf(old(db)@),
    ensures
        database_wf(final(db)@),
        lookup(old(db)@, table@) is None ==> final(db)@ == old(db)@ && r@ == table_not_found(table@),
        lookup(old(db)@, table@) is Some ==> final(db)@ == put(
            old(db)@,
            table@,
            append_value(
                lookup(old(db)@, table@)->Some_0,
                column@,
                classify(raw@, match float_text { Some(t) => Some(t@), None => None }),
            ),
        ) && r@ == "Inserted into "@ + table@ + " "@ + column@,
{
    if !db.contains_table(table) {
        return table_not_found_reply(table);
    }
    let mut r = "Inserted into ".to_string();
    r.append(table);
    r.append(" ");
    r.append(column.as_str());
    let v = classify_value(raw, float_text);
    db.append_to(table, column, v);
    r
}

/// The reply to `save` once the caller has tried to write `file`; `outcome`
/// holds the text of the error, if any.
pub fn finish_save(file: &str, outcome: Result<(), String>) -> (r: String)
    ensures
        outcome is Ok ==> r@ == "Database saved to "@ + file@,
        outcome is Err ==> r@ == "Failed to save Database: "@ + outcome->Err_0@,
{
    match outcome {
        Ok(()) => {
            let mut r = "Database saved to ".to_string();
            r.append(file);
            r
        },
        Err(e) => {
            let mut r = "Failed to save Database: ".to_string();
            r.append(e.as_str());
            r
        },
    }
}

/// Completes a `load` of `file`: a collection that was read replaces the
/// current one whole; on an error (its text in `loaded`) nothing changes.
pub fn finish_load(db: &mut Database, file: &str, loaded: Result<Database, String>) -> (r: String)
    requires
        database_wf(old(db)@),
        loaded is Ok ==> database_wf(loaded->Ok_0@),
    ensures
        database_wf(final(db)@),
        loaded is Ok ==> final(db)@ == loaded->Ok_0@ && r@ == "Successfully loaded database from "@
            + file@,
        loaded is Err ==> final(db)@ == old(db)@ && r@ == "Failed to load Database: "@
            + loaded->Err_0@,
{
    match loaded {
        Ok(n) => {
            *db = n;
            let mut r = "Successfully loaded database from ".to_string();
            r.append(file);
            r
        },
        Err(e) => {
            let mut r = "Failed to load Database: ".to_string();
            r.append(e.as_str());
            r
        },
    }
}

} // verus!
