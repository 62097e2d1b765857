//! SQL fragments built from user input: WHERE filters, quoted identifiers,
//! preview projections, advanced queries and quoted file paths.
use vstd::prelude::*;
use crate::text::{
    chars_of, contains, contains_chars, double_char, join, lemma_double_char_absent,
    lemma_double_char_concat, lemma_double_char_injective,
    lemma_double_keeps_out, lemma_replace_keeps_out, lemma_trim_ends, lemma_trim_fixed, occurs_at,
    occurs_at_chars, push_chars,
    push_doubled, replace_all, replace_chars, starts_with, string_of, trim, trim_chars,
    trim_end_char, trim_end_char_chars,
};

verus! {

/// What the user asked to see: a column selection with a WHERE filter, or a
/// free SQL query over the file.
#[derive(Clone, Debug)]
pub enum QueryInput {
    Filter { selected_columns: Vec<String>, where_clause: String },
    Advanced { sql: String },
}

/// The file format of an export.
#[derive(Clone, Copy, Debug, PartialEq, Eq, Structural)]
pub enum ExportFormat {
    Csv,
    Parquet,
}

/// Message of a WHERE filter that holds a statement separator or a comment.
pub const WHERE_FILTER_ERROR: &'static str = "WHERE filter cannot contain ';' or SQL comments";

/// Message of an advanced query that is empty.
pub const EMPTY_ADVANCED_ERROR: &'static str = "Advanced query cannot be empty";

/// Message of an advanced query without the `{{file}}` placeholder.
pub const MISSING_PLACEHOLDER_ERROR: &'static str = "Advanced query must include the {{file}} placeholder";

/// The view of a string result.
pub open spec fn result_view(r: Result<String, String>) -> Result<Seq<char>, Seq<char>> {
    match r {
        Ok(s) => Ok(s@),
        Err(e) => Err(e@),
    }
}

/// `WHERE ` (upper case, with its space).
pub open spec fn where_keyword() -> Seq<char> {
    seq!['W', 'H', 'E', 'R', 'E', ' ']
}

/// `where ` (lower case, with its space).
pub open spec fn where_keyword_lower() -> Seq<char> {
    seq!['w', 'h', 'e', 'r', 'e', ' ']
}

/// A filter holds `;`, `--` or `/*`.
pub open spec fn has_unsafe_fragment(t: Seq<char>) -> bool {
    ||| contains(t, seq![';'])
    ||| contains(t, seq!['-', '-'])
    ||| contains(t, seq!['/', '*'])
}

/// The filter text without a leading `WHERE ` or `where `.
pub open spec fn strip_where_keyword(t: Seq<char>) -> Seq<char> {
    if starts_with(t, where_keyword()) {
        t.skip(6)
    } else if starts_with(t, where_keyword_lower()) {
        t.skip(6)
    } else {
        t
    }
}

/// The normalized WHERE clause of a filter: empty for a blank filter, an error
/// for one with `;` or a comment, else `WHERE ` and the trimmed condition.
pub open spec fn where_clause_of(input: Seq<char>) -> Result<Seq<char>, Seq<char>> {
    let t = trim(input);
    if t.len() == 0 {
        Ok(seq![])
    } else if has_unsafe_fragment(t) {
        Err(WHERE_FILTER_ERROR@)
    } else {
        Ok(where_keyword() + strip_where_keyword(t))
    }
}

/// An identifier in double quotes, its own double quotes doubled.
pub open spec fn quoted_identifier(s: Seq<char>) -> Seq<char> {
    seq!['"'] + double_char(s, '"') + seq!['"']
}

/// A string literal in single quotes, its own single quotes doubled.
pub open spec fn quoted_literal(s: Seq<char>) -> Seq<char> {
    seq!['\''] + double_char(s, '\'') + seq!['\'']
}

/// One column of the preview: the column cast to text under its own name.
pub open spec fn preview_item(column: Seq<char>) -> Seq<char> {
    "CAST("@ + quoted_identifier(column) + " AS VARCHAR) AS "@ + quoted_identifier(column)
}

/// `, `
pub open spec fn list_separator() -> Seq<char> {
    seq![',', ' ']
}

/// The views of a list of strings.
pub open spec fn string_views(items: Seq<String>) -> Seq<Seq<char>> {
    items.map_values(|s: String| s@)
}

/// The select list of the preview.
pub open spec fn projection_of(columns: Seq<Seq<char>>) -> Seq<char> {
    join(columns.map_values(|c: Seq<char>| preview_item(c)), list_separator())
}

/// `{{file}}`
pub open spec fn file_placeholder() -> Seq<char> {
    seq!['{', '{', 'f', 'i', 'l', 'e', '}', '}']
}

/// The advanced query text once trimmed and stripped of trailing `;`.
pub open spec fn advanced_body(input: Seq<char>) -> Seq<char> {
    trim(trim_end_char(trim(input), ';'))
}

/// The table function that reads the Parquet file at `path`.
pub open spec fn read_parquet_call(path: Seq<char>) -> Seq<char> {
    "read_parquet("@ + quoted_literal(path) + ")"@
}

/// The advanced query with `{{file}}` replaced by the file, or why it is refused.
pub open spec fn advanced_sql_of(path: Seq<char>, input: Seq<char>) -> Result<Seq<char>, Seq<char>> {
    let t = advanced_body(input);
    if t.len() == 0 {
        Err(EMPTY_ADVANCED_ERROR@)
    } else if !contains(t, file_placeholder()) {
        Err(MISSING_PLACEHOLDER_ERROR@)
    } else {
        Ok(replace_all(t, file_placeholder(), read_parquet_call(path)))
    }
}

/// Turns the text of the filter field into a WHERE clause: a blank filter gives
/// the empty clause, a filter with `;`, `--` or `/*` is refused, and otherwise
/// the trimmed condition, with a leading `WHERE ` or `where ` removed, follows
/// `WHERE `.
pub fn normalize_where_clause(input: &str) -> (r: Result<String, String>)
    ensures
        result_view(r) == where_clause_of(input@),
{
    let chars = chars_of(input);
    let t = trim_chars(&chars);
    if t.len() == 0 {
        return Ok(String::new());
    }
    let semicolon = vec![';'];
    let line_comment = vec!['-', '-'];
    let block_comment = vec!['/', '*'];
    assert(semicolon@ =~= seq![';']);
    assert(line_comment@ =~= seq!['-', '-']);
    assert(block_comment@ =~= seq!['/', '*']);
    if contains_chars(&t, &semicolon) || contains_chars(&t, &line_comment) || contains_chars(
        &t,
        &block_comment,
    ) {
        return Err(String::from_str(WHERE_FILTER_ERROR));
    }
    let upper = vec!['W', 'H', 'E', 'R', 'E', ' '];
    let lower = vec!['w', 'h', 'e', 'r', 'e', ' '];
    assert(upper@ =~= where_keyword());
    assert(lower@ =~= where_keyword_lower());
    let mut out = string_of(&upper);
    if occurs_at_chars(&t, &upper, 0) || occurs_at_chars(&t, &lower, 0) {
        let rest = crate::text::slice_chars(&t, 6, t.len());
        assert(rest@ =~= t@.skip(6));
        push_chars(&mut out, &rest);
    } else {
        push_chars(&mut out, &t);
    }
    Ok(out)
}

/// Quotes a column name for SQL: double quotes around it, each double quote
/// inside written twice.
pub fn quote_identifier(identifier: &str) -> (r: String)
    ensures
        r@ == quoted_identifier(identifier@),
{
    let chars = chars_of(identifier);
    let mut out = String::new();
    crate::text::push_char(&mut out, '"');
    push_doubled(&mut out, &chars, '"');
    crate::text::push_char(&mut out, '"');
    assert(out@ =~= quoted_identifier(identifier@));
    out
}

/// The select list of the preview: each column cast to text under its own
/// quoted name, separated by `, `.
pub fn preview_projection(columns: &[String]) -> (r: String)
    ensures
        r@ == projection_of(string_views(columns@)),
{
    let ghost items = string_views(columns@).map_values(|c: Seq<char>| preview_item(c));
    let mut out = String::new();
    let mut i: usize = 0;
    assert(items.take(0) =~= Seq::<Seq<char>>::empty());
    while i < columns.len()
        invariant
            i <= columns.len(),
            items == string_views(columns@).map_values(|c: Seq<char>| preview_item(c)),
            items.len() == columns.len(),
            out@ == join(items.take(i as int), list_separator()),
        decreases columns.len() - i,
    {
        let ghost before = out@;
        if i > 0 {
            crate::text::push_char(&mut out, ',');
            crate::text::push_char(&mut out, ' ');
        }
        let quoted = quote_identifier(columns[i].as_str());
        out.append("CAST(");
        out.append(quoted.as_str());
        out.append(" AS VARCHAR) AS ");
        out.append(quoted.as_str());
        proof {
            let item = preview_item(columns@[i as int]@);
            assert(items[i as int] == item);
            assert(items.take(i + 1).drop_last() =~= items.take(i as int));
            if i > 0 {
                assert(out@ =~= before + list_separator() + item);
            } else {
                assert(items.take(1) =~= seq![item]);
                assert(out@ =~= item);
            }
        }
        i = i + 1;
    }
    assert(items.take(columns.len() as int) =~= items);
    out
}

/// A file path as a SQL string literal: single quotes around it, each single
/// quote inside written twice.
pub fn sql_string(path: &str) -> (r: String)
    ensures
        r@ == quoted_literal(path@),
{
    let chars = chars_of(path);
    let mut out = String::new();
    crate::text::push_char(&mut out, '\'');
    push_doubled(&mut out, &chars, '\'');
    crate::text::push_char(&mut out, '\'');
    assert(out@ =~= quoted_literal(path@));
    out
}

/// Prepares an advanced query: trims it and drops trailing `;`, refuses it when
/// nothing is left or when it lacks `{{file}}`, and replaces each `{{file}}`
/// with a `read_parquet` call on the file.
pub fn advanced_sql(path: &str, input: &str) -> (r: Result<String, String>)
    ensures
        result_view(r) == advanced_sql_of(path@, input@),
{
    let chars = chars_of(input);
    let t1 = trim_chars(&chars);
    let t2 = trim_end_char_chars(&t1, ';');
    let t = trim_chars(&t2);
    if t.len() == 0 {
        return Err(String::from_str(EMPTY_ADVANCED_ERROR));
    }
    let placeholder = vec!['{', '{', 'f', 'i', 'l', 'e', '}', '}'];
    assert(placeholder@ =~= file_placeholder());
    if !contains_chars(&t, &placeholder) {
        return Err(String::from_str(MISSING_PLACEHOLDER_ERROR));
    }
    let mut call = String::from_str("read_parquet(");
    let quoted = sql_string(path);
    call.append(quoted.as_str());
    call.append(")");
    let call_chars = chars_of(call.as_str());
    let replaced = replace_chars(&t, &placeholder, &call_chars);
    Ok(string_of(&replaced))
}

/// A WHERE clause that was accepted is empty or begins with `WHERE `.
pub proof fn lemma_where_clause_shape(input: Seq<char>)
    ensures
        where_clause_of(input) matches Ok(c) ==> c.len() == 0 || starts_with(c, where_keyword()),
{
    if let Ok(c) = where_clause_of(input) {
        if c.len() > 0 {
            assert(c.subrange(0, 6) =~= where_keyword());
        }
    }
}

proof fn lemma_no_fragment_in_clause(t: Seq<char>, off: int, p: Seq<char>)
    requires
        off == 0 || off == 6,
        off <= t.len(),
        p.len() > 0,
        p.len() <= 2,
        p[0] != ' ' && p[0] != 'W' && p[0] != 'H' && p[0] != 'E' && p[0] != 'R',
        !contains(t, p),
    ensures
        !contains(where_keyword() + t.skip(off), p),
{
    let c = where_keyword() + t.skip(off);
    assert forall|i: int| !occurs_at(c, p, i) by {
        if occurs_at(c, p, i) {
            assert(c.subrange(i, i + p.len())[0] == p[0]);
            if i < 6 {
                assert(c[i] == where_keyword()[i]);
            } else {
                assert(t.subrange(i - 6 + off, i - 6 + off + p.len()) =~= c.subrange(i, i + p.len()));
                assert(occurs_at(t, p, i - 6 + off));
            }
        }
    }
}

/// Normalizing an accepted WHERE clause again leaves it as it is.
pub proof fn lemma_where_clause_idempotent(input: Seq<char>)
    ensures
        where_clause_of(input) matches Ok(c) ==> where_clause_of(c) == Ok::<Seq<char>, Seq<char>>(c),
{
    let t = trim(input);
    if let Ok(c) = where_clause_of(input) {
        if c.len() > 0 {
            lemma_trim_ends(input);
            let off: int = if starts_with(t, where_keyword()) || starts_with(t, where_keyword_lower()) {
                6
            } else {
                0
            };
            assert(strip_where_keyword(t) == t.skip(off));
            if off == 6 {
                if t.len() == 6 {
                    assert(t.last() == t.subrange(0, 6)[5]);
                }
                assert(t.len() > 6);
            }
            let w = t.skip(off);
            assert(c == where_keyword() + w);
            assert(c[0] == 'W');
            assert(c.last() == t.last());
            lemma_trim_fixed(c);
            lemma_no_fragment_in_clause(t, off, seq![';']);
            lemma_no_fragment_in_clause(t, off, seq!['-', '-']);
            lemma_no_fragment_in_clause(t, off, seq!['/', '*']);
            assert(c.subrange(0, 6) =~= where_keyword());
            assert(c.skip(6) =~= w);
        }
    }
}

/// Distinct column names have distinct quoted forms.
pub proof fn lemma_quote_identifier_injective(a: Seq<char>, b: Seq<char>)
    requires
        quoted_identifier(a) == quoted_identifier(b),
    ensures
        a == b,
{
    let qa = quoted_identifier(a);
    let qb = quoted_identifier(b);
    assert(qa.subrange(1, qa.len() - 1) =~= double_char(a, '"'));
    assert(qb.subrange(1, qb.len() - 1) =~= double_char(b, '"'));
    lemma_double_char_injective(a, b, '"');
}

/// Distinct paths have distinct SQL string literals.
pub proof fn lemma_sql_string_injective(a: Seq<char>, b: Seq<char>)
    requires
        quoted_literal(a) == quoted_literal(b),
    ensures
        a == b,
{
    let qa = quoted_literal(a);
    let qb = quoted_literal(b);
    assert(qa.subrange(1, qa.len() - 1) =~= double_char(a, '\''));
    assert(qb.subrange(1, qb.len() - 1) =~= double_char(b, '\''));
    lemma_double_char_injective(a, b, '\'');
}

proof fn lemma_placeholder_chars(c: char)
    requires
        file_placeholder().contains(c),
    ensures
        c == '{' || c == 'f' || c == 'i' || c == 'l' || c == 'e' || c == '}',
{
    let p = file_placeholder();
    let j = choose|j: int| 0 <= j < p.len() && p[j] == c;
    if j == 0 {
    } else if j == 1 {
    } else if j == 2 {
    } else if j == 3 {
    } else if j == 4 {
    } else if j == 5 {
    } else if j == 6 {
    } else {
        assert(j == 7);
    }
}

proof fn lemma_call_lacks_placeholder(path: Seq<char>)
    requires
        !contains(path, file_placeholder()),
    ensures
        !contains(read_parquet_call(path), file_placeholder()),
        read_parquet_call(path).len() > 0,
        read_parquet_call(path)[0] == 'r',
        read_parquet_call(path).last() == ')',
{
    let p = file_placeholder();
    reveal_strlit("read_parquet(");
    reveal_strlit(")");
    let a = "read_parquet("@;
    let d = double_char(path, '\'');
    if p.contains('\'') {
        lemma_placeholder_chars('\'');
    }
    lemma_double_keeps_out(path, p, '\'');
    let r = read_parquet_call(path);
    assert(a.len() == 13);
    assert(r == a + (seq!['\''] + d + seq!['\'']) + ")"@);
    let e: int = 14 + d.len() as int;
    assert(r[13] == '\'');
    assert(r[e] == '\'');
    assert(r[e + 1] == ')');
    assert(r.len() == e + 2);
    assert forall|i: int| !occurs_at(r, p, i) by {
        if occurs_at(r, p, i) {
            assert(r.subrange(i, i + 8)[0] == p[0]);
            assert(r[i] == '{');
            if i < 13 {
                assert(r[i] == a[i]);
            } else if i == 13 {
            } else if i >= e {
            } else if i + 8 > e {
                assert(r.subrange(i, i + 8)[e - i] == p[e - i]);
                assert(p.contains(p[e - i]));
                lemma_placeholder_chars(p[e - i]);
            } else {
                assert(d.subrange(i - 14, i - 6) =~= r.subrange(i, i + 8));
                assert(occurs_at(d, p, i - 14));
            }
        }
    }
}

/// A prepared advanced query has no `{{file}}` placeholder left, as long as
/// the file path itself holds none.
pub proof fn lemma_advanced_sql_replaces_placeholder(path: Seq<char>, input: Seq<char>)
    requires
        !contains(path, file_placeholder()),
    ensures
        advanced_sql_of(path, input) matches Ok(q) ==> !contains(q, file_placeholder()),
{
    let p = file_placeholder();
    let r = read_parquet_call(path);
    lemma_call_lacks_placeholder(path);
    if p.contains('r') {
        lemma_placeholder_chars('r');
    }
    if p.contains(')') {
        lemma_placeholder_chars(')');
    }
    lemma_replace_keeps_out(advanced_body(input), p, r);
}


/// A blank filter gives the empty clause.
pub proof fn lemma_blank_filter_is_empty_clause(input: Seq<char>)
    requires
        trim(input).len() == 0,
    ensures
        where_clause_of(input) == Ok::<Seq<char>, Seq<char>>(seq![]),
{
}

/// A filter is refused, with the filter message, whenever its trimmed text
/// holds `;`, `--` or `/*`.
pub proof fn lemma_filter_with_fragment_is_refused(input: Seq<char>)
    requires
        trim(input).len() > 0,
        contains(trim(input), seq![';']) || contains(trim(input), seq!['-', '-']) || contains(
            trim(input),
            seq!['/', '*'],
        ),
    ensures
        where_clause_of(input) == Err::<Seq<char>, Seq<char>>(WHERE_FILTER_ERROR@),
{
}

/// Every other filter is accepted: a non-blank filter without `;`, `--` and
/// `/*` becomes `WHERE ` followed by its trimmed text, a leading `WHERE ` or
/// `where ` taken off.
pub proof fn lemma_safe_filter_is_accepted(input: Seq<char>)
    requires
        trim(input).len() > 0,
        !contains(trim(input), seq![';']),
        !contains(trim(input), seq!['-', '-']),
        !contains(trim(input), seq!['/', '*']),
    ensures
        where_clause_of(input) == Ok::<Seq<char>, Seq<char>>(
            seq!['W', 'H', 'E', 'R', 'E', ' '] + if starts_with(
                trim(input),
                seq!['W', 'H', 'E', 'R', 'E', ' '],
            ) || starts_with(trim(input), seq!['w', 'h', 'e', 'r', 'e', ' ']) {
                trim(input).skip(6)
            } else {
                trim(input)
            },
        ),
{
}

/// A name without double quotes is quoted as it stands.
pub proof fn lemma_quote_identifier_plain(name: Seq<char>)
    requires
        !name.contains('"'),
    ensures
        quoted_identifier(name) == seq!['"'] + name + seq!['"'],
{
    lemma_double_char_absent(name, '"');
}

/// A double quote inside a name is written twice, the text around it quoted
/// as the rest of the name.
pub proof fn lemma_quote_identifier_doubles_quotes(a: Seq<char>, b: Seq<char>)
    ensures
        quoted_identifier(a + seq!['"'] + b) == quoted_identifier(a).drop_last() + seq!['"', '"']
            + quoted_identifier(b).drop_first(),
{
    lemma_double_char_concat(a + seq!['"'], b, '"');
    lemma_double_char_concat(a, seq!['"'], '"');
    let one: Seq<char> = seq!['"'];
    assert(one.drop_first() =~= Seq::<char>::empty());
    assert(double_char(one, '"') == seq!['"', '"'] + double_char(one.drop_first(), '"'));
    assert(double_char(one, '"') =~= seq!['"', '"']);
    assert(quoted_identifier(a).drop_last() =~= seq!['"'] + double_char(a, '"'));
    assert(quoted_identifier(b).drop_first() =~= double_char(b, '"') + seq!['"']);
    assert(quoted_identifier(a + seq!['"'] + b) =~= quoted_identifier(a).drop_last() + seq!['"', '"']
        + quoted_identifier(b).drop_first());
}

/// A path without single quotes becomes a literal as it stands.
pub proof fn lemma_sql_string_plain(path: Seq<char>)
    requires
        !path.contains('\''),
    ensures
        quoted_literal(path) == seq!['\''] + path + seq!['\''],
{
    lemma_double_char_absent(path, '\'');
}

/// A single quote inside a path is written twice, the text around it quoted
/// as the rest of the path.
pub proof fn lemma_sql_string_doubles_quotes(a: Seq<char>, b: Seq<char>)
    ensures
        quoted_literal(a + seq!['\''] + b) == quoted_literal(a).drop_last() + seq!['\'', '\'']
            + quoted_literal(b).drop_first(),
{
    lemma_double_char_concat(a + seq!['\''], b, '\'');
    lemma_double_char_concat(a, seq!['\''], '\'');
    let one: Seq<char> = seq!['\''];
    assert(one.drop_first() =~= Seq::<char>::empty());
    assert(double_char(one, '\'') == seq!['\'', '\''] + double_char(one.drop_first(), '\''));
    assert(double_char(one, '\'') =~= seq!['\'', '\'']);
    assert(quoted_literal(a).drop_last() =~= seq!['\''] + double_char(a, '\''));
    assert(quoted_literal(b).drop_first() =~= double_char(b, '\'') + seq!['\'']);
    assert(quoted_literal(a + seq!['\''] + b) =~= quoted_literal(a).drop_last() + seq!['\'', '\'']
        + quoted_literal(b).drop_first());
}

/// The projection of no column is empty.
pub proof fn lemma_projection_of_nothing()
    ensures
        projection_of(seq![]) == Seq::<char>::empty(),
{
}

/// The projection of one column casts it to text under its own quoted name.
pub proof fn lemma_projection_of_one(c: Seq<char>)
    ensures
        projection_of(seq![c]) == "CAST("@ + quoted_identifier(c) + " AS VARCHAR) AS "@
            + quoted_identifier(c),
{
    let items = seq![c].map_values(|x: Seq<char>| preview_item(x));
    assert(items.len() == 1);
    assert(items[0] == preview_item(c));
}

/// Adding a column to a non-empty projection appends `, ` and the new
/// column cast to text under its own quoted name.
pub proof fn lemma_projection_of_push(cs: Seq<Seq<char>>, c: Seq<char>)
    requires
        cs.len() > 0,
    ensures
        projection_of(cs.push(c)) == projection_of(cs) + seq![',', ' '] + "CAST("@
            + quoted_identifier(c) + " AS VARCHAR) AS "@ + quoted_identifier(c),
{
    let f = |x: Seq<char>| preview_item(x);
    let items = cs.push(c).map_values(f);
    assert(items.drop_last() =~= cs.map_values(f));
    assert(items.last() == preview_item(c));
    assert(items.len() >= 2);
}

} // verus!
