//! Properties of the interpreter that hold across commands.
use vstd::prelude::*;
use crate::command::{classify, step_spec, table_not_found, StepView};
use crate::table::{append_value, database_wf, lemma_put, lookup, put, table_wf, lemma_count_below, ColumnView, TableView, Value};
use crate::text::{digits_value, is_word, lemma_tokens_append_space, lemma_tokens_append_word, parse_i32_spec, tokens};

verus! {

proof fn lemma_command_words_differ()
    ensures
        "create"@ != "insert"@,
        "create"@ != "select"@,
        "insert"@ != "select"@,
{
    reveal_strlit("create");
    reveal_strlit("insert");
    reveal_strlit("select");
    assert("create"@[0] != "insert"@[0]);
    assert("create"@[0] != "select"@[0]);
    assert("insert"@[0] != "select"@[0]);
}

/// Two words separated by one space read as those two words.
pub proof fn lemma_tokens_two(a: Seq<char>, b: Seq<char>)
    requires
        is_word(a),
        is_word(b),
    ensures
        tokens(a + " "@ + b) == seq![a, b],
{
    reveal_strlit(" ");
    lemma_tokens_append_word(Seq::<char>::empty(), a);
    assert(Seq::<char>::empty() + a =~= a);
    assert(tokens(Seq::<char>::empty()) =~= Seq::<Seq<char>>::empty());
    lemma_tokens_append_space(a, ' ');
    assert(a + " "@ =~= a.push(' '));
    lemma_tokens_append_word(a.push(' '), b);
    assert(seq![a].push(b) =~= seq![a, b]);
}

/// Three words separated by single spaces read as those three words.
pub proof fn lemma_tokens_three(a: Seq<char>, b: Seq<char>, c: Seq<char>)
    requires
        is_word(a),
        is_word(b),
        is_word(c),
    ensures
        tokens(a + " "@ + b + " "@ + c) == seq![a, b, c],
{
    reveal_strlit(" ");
    lemma_tokens_two(a, b);
    let p = a + " "@ + b;
    lemma_tokens_append_space(p, ' ');
    assert(p + " "@ =~= p.push(' '));
    lemma_tokens_append_word(p.push(' '), c);
    assert(seq![a, b].push(c) =~= seq![a, b, c]);
}

proof fn lemma_command_words_are_words()
    ensures
        is_word("create"@),
        is_word("select"@),
{
    reveal_strlit("create");
    reveal_strlit("select");
}

/// The columns of table `t`, which is known to exist.
pub open spec fn columns_of(d: Seq<TableView>, t: Seq<char>) -> Seq<ColumnView> {
    lookup(d, t)->Some_0
}

proof fn lemma_lookup_wf(d: Seq<TableView>, t: Seq<char>)
    requires
        database_wf(d),
        lookup(d, t) is Some,
    ensures
        table_wf((t, columns_of(d, t))),
{
    lemma_count_below(d, t);
    let i = crate::table::count_below(d, t);
    assert(table_wf((d[i].0, d[i].1)));
}

/// A table that was just created has no columns, so `select t` right after
/// `create t` gives the empty text, for every name `t`.
pub proof fn law_create_then_select_all(d: Seq<TableView>, t: Seq<char>)
    requires
        database_wf(d),
        is_word(t),
    ensures
        step_spec(step_spec(d, tokens("create"@ + " "@ + t)).0, tokens("select"@ + " "@ + t)).1
            == StepView::Reply(Seq::<char>::empty()),
{
    lemma_command_words_are_words();
    lemma_tokens_two("create"@, t);
    lemma_tokens_two("select"@, t);
    lemma_command_words_differ();
    lemma_put(d, t, Seq::<ColumnView>::empty());
}

/// Inserting into or selecting from a table that does not exist changes
/// nothing and replies that the table was not found.
pub proof fn law_missing_table(d: Seq<TableView>, w: Seq<Seq<char>>)
    requires
        (w.len() >= 4 && w[0] == "insert"@) || (w.len() >= 2 && w[0] == "select"@),
        lookup(d, w[1]) is None,
    ensures
        step_spec(d, w) == (d, StepView::Reply(table_not_found(w[1]))),
{
    lemma_command_words_differ();
}

/// `select t c` on a table `t` that lacks column `c` names the column and
/// the table.
pub proof fn law_missing_column(d: Seq<TableView>, t: Seq<char>, c: Seq<char>)
    requires
        is_word(t),
        is_word(c),
        lookup(d, t) is Some,
        lookup(columns_of(d, t), c) is None,
    ensures
        step_spec(d, tokens("select"@ + " "@ + t + " "@ + c)).1 == StepView::Reply(
            "Column "@ + c + " not found in table "@ + t,
        ),
{
    lemma_command_words_are_words();
    lemma_tokens_three("select"@, t, c);
    lemma_command_words_differ();
}

/// The collection after `v` is inserted into column `c` of table `t`.
pub open spec fn inserted(d: Seq<TableView>, t: Seq<char>, c: Seq<char>, v: Value) -> Seq<TableView> {
    put(d, t, append_value(columns_of(d, t), c, v))
}

/// Two inserts into one column keep their order: the column ends with the
/// first value, then the second.
pub proof fn law_inserts_keep_order(d: Seq<TableView>, t: Seq<char>, c: Seq<char>, v1: Value, v2: Value)
    requires
        database_wf(d),
        lookup(d, t) is Some,
    ensures
        ({
            let before = match lookup(columns_of(d, t), c) {
                Some(vs) => vs,
                None => Seq::<Value>::empty(),
            };
            let d2 = inserted(inserted(d, t, c, v1), t, c, v2);
            lookup(d2, t) is Some && lookup(columns_of(d2, t), c) == Some(before.push(v1).push(v2))
        }),
{
    let cols = columns_of(d, t);
    lemma_lookup_wf(d, t);
    let before = match lookup(cols, c) {
        Some(vs) => vs,
        None => Seq::<Value>::empty(),
    };
    lemma_put(cols, c, before.push(v1));
    let cols1 = append_value(cols, c, v1);
    lemma_put(d, t, cols1);
    let d1 = inserted(d, t, c, v1);
    lemma_put(cols1, c, before.push(v1).push(v2));
    let cols2 = append_value(cols1, c, v2);
    lemma_put(d1, t, cols2);
}

/// An integer literal is always an integer, whatever it would read as in
/// floating point; a decimal with a fraction is a float where it reads as one.
pub proof fn law_integer_before_float(f: Option<Seq<char>>, t: Seq<char>)
    ensures
        classify("42"@, f) == Value::Int(42),
        classify("42.0"@, Some(t)) == Value::Float(t),
{
    reveal_strlit("42");
    reveal_strlit("42.0");
    let s = "42"@;
    assert(s.drop_last() =~= seq!['4']);
    assert(seq!['4'].drop_last() =~= Seq::<char>::empty());
    assert(digits_value(Seq::<char>::empty()) == 0);
    assert(digits_value(seq!['4']) == 4);
    assert(s.last() == '2');
    assert(digits_value(s) == 42);
    assert(parse_i32_spec("42.0"@) is None) by {
        assert(!crate::text::is_digit("42.0"@[2]));
    }
}

} // verus!
