//! Raw samples as CSV or JSON.

use crate::chart::{runs_of, stands_at, Run};
use crate::run::{consistent, Measured};
use crate::stats::{Phase, Samples};
use crate::text::{chars_of, decimal, decimal_text, digit};
use vstd::prelude::*;
use vstd::string::StringExecFns;

verus! {

/// The value of a field of a JSON object.
pub enum Json {
    Text(String),
    Number(u64),
    Flag(bool),
    List(Vec<u64>),
    /// An object of numbers.
    Group(Vec<(String, u64)>),
}

pub enum JsonModel {
    Text(Seq<char>),
    Number(u64),
    Flag(bool),
    List(Seq<u64>),
    Group(Seq<(Seq<char>, u64)>),
}

impl View for Json {
    type V = JsonModel;

    open spec fn view(&self) -> JsonModel {
        match self {
            Json::Text(text) => JsonModel::Text(text@),
            Json::Number(n) => JsonModel::Number(*n),
            Json::Flag(b) => JsonModel::Flag(*b),
            Json::List(values) => JsonModel::List(values@),
            Json::Group(fields) => JsonModel::Group(
                fields@.map_values(|f: (String, u64)| (f.0@, f.1)),
            ),
        }
    }
}

pub open spec fn fields_of(fields: Seq<(String, Json)>) -> Seq<(Seq<char>, JsonModel)> {
    fields.map_values(|f: (String, Json)| (f.0@, f.1@))
}

/// A text or an error's words, as sequences.
pub open spec fn text_or_text(r: Result<String, String>) -> Result<Seq<char>, Seq<char>> {
    match r {
        Ok(text) => Ok(text@),
        Err(e) => Err(e@),
    }
}

/// What `serde_json::to_string_pretty` writes for an object with given fields.
pub uninterp spec fn json_text(fields: Seq<(Seq<char>, JsonModel)>) -> Result<
    Seq<char>,
    Seq<char>,
>;

/// `serde_json::to_string_pretty` of a `serde_json::Map` with the fields: the
/// indented text of the object, or the error as it prints itself.
#[verifier::external_body]
pub(crate) fn json_pretty(fields: Vec<(String, Json)>) -> (r: Result<String, String>)
    ensures
        text_or_text(r) == json_text(fields_of(fields@)),
{
    let mut object = serde_json::Map::new();
    object.extend(fields.into_iter().map(|(name, value)| (name, match value {
        Json::Text(text) => serde_json::Value::from(text),
        Json::Number(n) => serde_json::Value::from(n),
        Json::Flag(b) => serde_json::Value::from(b),
        Json::List(values) => serde_json::Value::from(values),
        Json::Group(group) => group.into_iter().collect(),
    })));
    serde_json::to_string_pretty(&object).map_err(|e| e.to_string())
}

/// A text that ends its line, or the same error.
pub open spec fn line_of(r: Result<Seq<char>, Seq<char>>) -> Result<Seq<char>, Seq<char>> {
    match r {
        Ok(text) => Ok(text + "\n"@),
        Err(e) => Err(e),
    }
}

/// End the line of a text, where there is one.
pub fn as_line(r: Result<String, String>) -> (line: Result<String, String>)
    ensures
        text_or_text(line) == line_of(text_or_text(r)),
{
    match r {
        Ok(text) => {
            let mut line = text;
            line.append("\n");
            Ok(line)
        },
        Err(e) => Err(e),
    }
}

pub open spec fn ascii_lower(c: char) -> char {
    if 'A' <= c <= 'Z' {
        (c as u8 + 32) as char
    } else {
        c
    }
}

/// Whether samples go out as JSON: where the extension of the file is "json",
/// in capitals or not.
pub open spec fn wants_json(extension: Option<Seq<char>>) -> bool {
    extension matches Some(e) && e.map_values(|c: char| ascii_lower(c)) == "json"@
}

/// Whether samples go out as JSON.
pub fn is_json(extension: Option<&str>) -> (b: bool)
    ensures
        b == wants_json(
            match extension {
                Some(e) => Some(e@),
                None => None,
            },
        ),
{
    let text = match extension {
        None => {
            return false;
        },
        Some(e) => e,
    };
    let chars = chars_of(text);
    proof {
        reveal_strlit("json");
    }
    let ghost lower = text@.map_values(|c: char| ascii_lower(c));
    assert(lower == "json"@ <==> lower.len() == 4 && lower[0] == 'j' && lower[1] == 's' && lower[2]
        == 'o' && lower[3] == 'n') by {
        if lower.len() == 4 && lower[0] == 'j' && lower[1] == 's' && lower[2] == 'o' && lower[3]
            == 'n' {
            assert(lower =~= "json"@);
        }
    }
    chars.len() == 4 && (chars[0] == 'j' || chars[0] == 'J') && (chars[1] == 's' || chars[1]
        == 'S') && (chars[2] == 'o' || chars[2] == 'O') && (chars[3] == 'n' || chars[3] == 'N')
}

/// The names of the first `k` columns.
pub open spec fn column_names(runs: Seq<Run>, k: nat) -> Seq<char>
    decreases k,
{
    if k == 0 {
        Seq::empty()
    } else {
        column_names(runs, (k - 1) as nat) + (if k == 1 {
            ""@
        } else {
            ","@
        }) + runs[k - 1].0.spec_key() + "_ns"@
    }
}

/// Sample `i` of the first `k` phases.
pub open spec fn cells(runs: Seq<Run>, i: int, k: nat) -> Seq<char>
    decreases k,
{
    if k == 0 {
        Seq::empty()
    } else {
        cells(runs, i, (k - 1) as nat) + (if k == 1 {
            ""@
        } else {
            ","@
        }) + decimal(runs[k - 1].1[i] as nat)
    }
}

/// The first `n` lines of samples.
pub open spec fn lines(runs: Seq<Run>, n: nat) -> Seq<char>
    decreases n,
{
    if n == 0 {
        Seq::empty()
    } else {
        lines(runs, (n - 1) as nat) + decimal((n - 1) as nat) + ","@ + cells(
            runs,
            n - 1,
            runs.len(),
        ) + "\n"@
    }
}

/// How many samples of each phase go out: as many as the first has.
pub open spec fn depth(runs: Seq<Run>) -> nat {
    if runs.len() == 0 {
        0
    } else {
        runs[0].1.len()
    }
}

/// The samples as comma-separated values: a line of names, and one line per
/// iteration.
pub open spec fn csv_of(runs: Seq<Run>) -> Seq<char> {
    "iteration,"@ + column_names(runs, runs.len()) + "\n"@ + lines(runs, depth(runs))
}

fn column_names_text(phases: &[(Phase, Samples)]) -> (text: String)
    ensures
        text@ == column_names(runs_of(phases@), phases@.len()),
{
    let ghost runs = runs_of(phases@);
    let mut text = String::new();
    let mut k: usize = 0;
    while k < phases.len()
        invariant
            k <= phases@.len(),
            runs == runs_of(phases@),
            text@ == column_names(runs, k as nat),
        decreases phases.len() - k,
    {
        text.append(
            if k == 0 {
                ""
            } else {
                ","
            },
        );
        text.append(phases[k].0.key());
        text.append("_ns");
        k = k + 1;
    }
    text
}

fn cells_text(phases: &[(Phase, Samples)], i: usize) -> (text: String)
    requires
        forall|p: int| 0 <= p < phases@.len() ==> i < (#[trigger] phases@[p]).1@.len(),
    ensures
        text@ == cells(runs_of(phases@), i as int, phases@.len()),
{
    let ghost runs = runs_of(phases@);
    let mut text = String::new();
    let mut k: usize = 0;
    while k < phases.len()
        invariant
            k <= phases@.len(),
            runs == runs_of(phases@),
            forall|p: int| 0 <= p < phases@.len() ==> i < (#[trigger] phases@[p]).1@.len(),
            text@ == cells(runs, i as int, k as nat),
        decreases phases.len() - k,
    {
        text.append(
            if k == 0 {
                ""
            } else {
                ","
            },
        );
        let value = decimal_text(phases[k].1.raw()[i] as u128);
        text.append(value.as_str());
        k = k + 1;
    }
    text
}

/// The samples of phases as comma-separated values, as many of each as the
/// first phase has.
pub fn samples_csv(phases: &[(Phase, Samples)]) -> (text: String)
    requires
        forall|p: int|
            0 <= p < phases@.len() ==> phases@[0].1@.len() <= (#[trigger] phases@[p]).1@.len(),
    ensures
        text@ == csv_of(runs_of(phases@)),
{
    let ghost runs = runs_of(phases@);
    let mut text = String::from_str("iteration,");
    let names = column_names_text(phases);
    text.append(names.as_str());
    text.append("\n");
    let ghost head = text@;
    let n: usize = if phases.len() == 0 {
        0
    } else {
        phases[0].1.len()
    };
    let mut i: usize = 0;
    assert(text@ == head + lines(runs, 0));
    while i < n
        invariant
            i <= n,
            runs == runs_of(phases@),
            forall|p: int| 0 <= p < phases@.len() ==> n <= (#[trigger] phases@[p]).1@.len(),
            text@ == head + lines(runs, i as nat),
        decreases n - i,
    {
        let number = decimal_text(i as u128);
        text.append(number.as_str());
        text.append(",");
        let values = cells_text(phases, i);
        text.append(values.as_str());
        text.append("\n");
        assert(text@ == head + lines(runs, (i + 1) as nat));
        i = i + 1;
    }
    text
}

/// The samples as the fields of a JSON object: one list per phase.
pub open spec fn sample_fields(runs: Seq<Run>) -> Seq<(Seq<char>, JsonModel)> {
    runs.map_values(|r: Run| (r.0.spec_key(), JsonModel::List(r.1)))
}

/// The samples of phases as a JSON object.
pub fn samples_json(phases: &[(Phase, Samples)]) -> (r: Result<String, String>)
    ensures
        text_or_text(r) == json_text(sample_fields(runs_of(phases@))),
{
    let ghost runs = runs_of(phases@);
    let mut fields: Vec<(String, Json)> = Vec::new();
    let mut k: usize = 0;
    while k < phases.len()
        invariant
            k <= phases@.len(),
            runs == runs_of(phases@),
            fields_of(fields@) == sample_fields(runs).take(k as int),
        decreases phases.len() - k,
    {
        let ghost before = fields@;
        let values = vstd::slice::slice_to_vec(phases[k].1.raw());
        fields.push((String::from_str(phases[k].0.key()), Json::List(values)));
        assert(fields_of(fields@) =~= fields_of(before).push(sample_fields(runs)[k as int]));
        assert(sample_fields(runs).take(k + 1) =~= sample_fields(runs).take(k as int).push(
            sample_fields(runs)[k as int],
        ));
        k = k + 1;
    }
    assert(sample_fields(runs).take(k as int) =~= sample_fields(runs));
    json_pretty(fields)
}

impl Measured {
    /// The raw samples, for a file with given extension.
    pub fn samples(&self, extension: Option<&str>) -> (r: Result<String, String>)
        ensures
            text_or_text(r) == (if wants_json(
                match extension {
                    Some(e) => Some(e@),
                    None => None,
                },
            ) {
                json_text(sample_fields(self@.runs))
            } else {
                Ok(csv_of(self@.runs))
            }),
    {
        let phases = self.phases();
        proof {
            assert(consistent(self@));
            assert forall|p: int| 0 <= p < phases@.len() implies (#[trigger] phases@[p]).1@.len()
                == phases@[0].1@.len() by {
                assert(self@.runs[p].1.len() == self@.runs[0].1.len());
            }
        }
        if is_json(extension) {
            samples_json(phases)
        } else {
            Ok(samples_csv(phases))
        }
    }
}

/// How many lines a text ends.
pub open spec fn line_ends(text: Seq<char>) -> nat
    decreases text.len(),
{
    if text.len() == 0 {
        0
    } else if text.last() == '\n' {
        line_ends(text.drop_last()) + 1
    } else {
        line_ends(text.drop_last())
    }
}

proof fn lemma_line_ends_add(a: Seq<char>, b: Seq<char>)
    ensures
        line_ends(a + b) == line_ends(a) + line_ends(b),
    decreases b.len(),
{
    if b.len() == 0 {
        assert(a + b =~= a);
    } else {
        assert((a + b).drop_last() =~= a + b.drop_last());
        assert((a + b).last() == b.last());
        lemma_line_ends_add(a, b.drop_last());
    }
}

proof fn lemma_within_a_line(text: Seq<char>)
    requires
        forall|i: int| 0 <= i < text.len() ==> #[trigger] text[i] != '\n',
    ensures
        line_ends(text) == 0,
    decreases text.len(),
{
    if text.len() > 0 {
        assert(text[text.len() - 1] != '\n');
        lemma_within_a_line(text.drop_last());
    }
}

proof fn lemma_decimal_within_a_line(n: nat)
    ensures
        line_ends(decimal(n)) == 0,
    decreases n,
{
    if n < 10 {
        lemma_within_a_line(decimal(n));
    } else {
        lemma_decimal_within_a_line(n / 10);
        assert(decimal(n).drop_last() =~= decimal(n / 10));
    }
}

proof fn lemma_separators()
    ensures
        line_ends(""@) == 0,
        line_ends(","@) == 0,
        line_ends("_ns"@) == 0,
        line_ends("iteration,"@) == 0,
        line_ends("\n"@) == 1,
{
    reveal_strlit("");
    reveal_strlit(",");
    reveal_strlit("_ns");
    reveal_strlit("iteration,");
    reveal_strlit("\n");
    lemma_within_a_line(","@);
    lemma_within_a_line("_ns"@);
    lemma_within_a_line("iteration,"@);
    assert("\n"@.drop_last() =~= Seq::<char>::empty());
    assert(line_ends(Seq::<char>::empty()) == 0);
}

proof fn lemma_names_within_a_line(runs: Seq<Run>, k: nat)
    requires
        k <= runs.len(),
    ensures
        line_ends(column_names(runs, k)) == 0,
    decreases k,
{
    if k > 0 {
        lemma_names_within_a_line(runs, (k - 1) as nat);
        lemma_separators();
        let key = runs[k - 1].0.spec_key();
        reveal_strlit("sign_init");
        reveal_strlit("sign");
        reveal_strlit("verify");
        reveal_strlit("total");
        lemma_within_a_line(key);
        let a = column_names(runs, (k - 1) as nat);
        let comma = if k == 1 {
            ""@
        } else {
            ","@
        };
        lemma_line_ends_add(a, comma);
        lemma_line_ends_add(a + comma, key);
        lemma_line_ends_add(a + comma + key, "_ns"@);
    }
}

proof fn lemma_cells_within_a_line(runs: Seq<Run>, i: int, k: nat)
    requires
        k <= runs.len(),
    ensures
        line_ends(cells(runs, i, k)) == 0,
    decreases k,
{
    if k > 0 {
        lemma_cells_within_a_line(runs, i, (k - 1) as nat);
        lemma_separators();
        let value = decimal(runs[k - 1].1[i] as nat);
        lemma_decimal_within_a_line(runs[k - 1].1[i] as nat);
        let a = cells(runs, i, (k - 1) as nat);
        let comma = if k == 1 {
            ""@
        } else {
            ","@
        };
        lemma_line_ends_add(a, comma);
        lemma_line_ends_add(a + comma, value);
    }
}

proof fn lemma_lines(runs: Seq<Run>, n: nat)
    ensures
        line_ends(lines(runs, n)) == n,
    decreases n,
{
    if n > 0 {
        lemma_lines(runs, (n - 1) as nat);
        lemma_separators();
        let a = lines(runs, (n - 1) as nat);
        let number = decimal((n - 1) as nat);
        let values = cells(runs, n - 1, runs.len());
        lemma_decimal_within_a_line((n - 1) as nat);
        lemma_cells_within_a_line(runs, n - 1, runs.len());
        lemma_line_ends_add(a, number);
        lemma_line_ends_add(a + number, ","@);
        lemma_line_ends_add(a + number + ","@, values);
        lemma_line_ends_add(a + number + ","@ + values, "\n"@);
    }
}

/// Comma-separated samples have one line of names and exactly one line per
/// iteration.
pub proof fn law_csv_has_a_line_per_iteration(runs: Seq<Run>)
    ensures
        line_ends(csv_of(runs)) == 1 + depth(runs),
        runs.len() > 0 ==> line_ends(csv_of(runs)) == 1 + runs[0].1.len(),
        runs.len() == 0 ==> line_ends(csv_of(runs)) == 1,
{
    lemma_separators();
    lemma_names_within_a_line(runs, runs.len());
    lemma_lines(runs, depth(runs));
    let names = column_names(runs, runs.len());
    lemma_line_ends_add("iteration,"@, names);
    lemma_line_ends_add("iteration,"@ + names, "\n"@);
    lemma_line_ends_add("iteration,"@ + names + "\n"@, lines(runs, depth(runs)));
}

/// The fields of the JSON object are the phases in their order: each is named
/// by the phase's key and lists the phase's samples, all of them, in the order
/// in which they were taken.
pub proof fn law_json_lists_the_samples(runs: Seq<Run>, p: int)
    requires
        0 <= p < runs.len(),
    ensures
        sample_fields(runs).len() == runs.len(),
        sample_fields(Seq::empty()).len() == 0,
        sample_fields(runs)[p].0 == runs[p].0.spec_key(),
        sample_fields(runs)[p].1 matches JsonModel::List(values) && values.len() == runs[p].1.len()
            && forall|i: int| 0 <= i < values.len() ==> #[trigger] values[i] == runs[p].1[i],
{
}

/// What stands for a field has the field's name and the field's value.
pub proof fn law_fields_stand_for_themselves(fields: Seq<(String, Json)>, i: int, j: int)
    requires
        0 <= i < fields.len(),
    ensures
        fields_of(fields).len() == fields.len(),
        fields_of(fields)[i].0 == fields[i].0@,
        fields[i].1 matches Json::Text(text) ==> fields_of(fields)[i].1 == JsonModel::Text(text@),
        fields[i].1 matches Json::Number(n) ==> fields_of(fields)[i].1 == JsonModel::Number(n),
        fields[i].1 matches Json::Flag(b) ==> fields_of(fields)[i].1 == JsonModel::Flag(b),
        fields[i].1 matches Json::List(values) ==> fields_of(fields)[i].1 == JsonModel::List(
            values@,
        ),
        fields[i].1 matches Json::Group(group) ==> (fields_of(fields)[i].1 matches JsonModel::Group(
            named,
        ) && named.len() == group@.len() && (0 <= j < named.len() ==> named[j] == (
            group@[j].0@,
            group@[j].1,
        ))),
{
}

/// The extensions that ask for JSON are the word in small letters, in capitals
/// and in any mixture of them, and no others.
pub proof fn law_json_extensions(e: Seq<char>)
    ensures
        !wants_json(None),
        wants_json(Some(e)) <==> {
            &&& e.len() == 4
            &&& e[0] == 'j' || e[0] == 'J'
            &&& e[1] == 's' || e[1] == 'S'
            &&& e[2] == 'o' || e[2] == 'O'
            &&& e[3] == 'n' || e[3] == 'N'
        },
{
    reveal_strlit("json");
    let lower = e.map_values(|c: char| ascii_lower(c));
    if e.len() == 4 && (e[0] == 'j' || e[0] == 'J') && (e[1] == 's' || e[1] == 'S') && (e[2] == 'o'
        || e[2] == 'O') && (e[3] == 'n' || e[3] == 'N') {
        assert(lower =~= "json"@);
    }
    if wants_json(Some(e)) {
        assert(lower =~= "json"@);
        assert(lower[0] == 'j' && lower[1] == 's' && lower[2] == 'o' && lower[3] == 'n');
        assert(lower.len() == e.len());
        assert(ascii_lower(e[0]) == 'j' && ascii_lower(e[1]) == 's');
        assert(ascii_lower(e[2]) == 'o' && ascii_lower(e[3]) == 'n');
    }
}

/// A line that is ended is the text with one end of line behind it.
pub proof fn law_line_ends_once(text: Seq<char>, e: Seq<char>)
    ensures
        line_of(Ok(text)) matches Ok(line) && line.drop_last() == text && line.last() == '\n'
            && line.len() == text.len() + 1,
        line_of(Err(e)) == Err::<Seq<char>, Seq<char>>(e),
{
    reveal_strlit("\n");
    assert((text + "\n"@).drop_last() =~= text);
}

/// How often a character stands in a text.
pub open spec fn count_of(text: Seq<char>, c: char) -> nat
    decreases text.len(),
{
    if text.len() == 0 {
        0
    } else if text.last() == c {
        count_of(text.drop_last(), c) + 1
    } else {
        count_of(text.drop_last(), c)
    }
}

pub open spec fn is_piece_at(
    text: Seq<char>,
    part: Seq<char>,
    separator: char,
    k: nat,
    i: int,
) -> bool {
    &&& stands_at(text, part, i)
    &&& count_of(text.take(i), separator) == k
    &&& count_of(part, separator) == 0
    &&& i == 0 || text[i - 1] == separator
    &&& i + part.len() == text.len() || text[i + part.len()] == separator
}

/// Whether `part` is the piece of `text` that follows `k` separators and holds
/// none.
pub open spec fn is_piece(text: Seq<char>, part: Seq<char>, separator: char, k: nat) -> bool {
    exists|i: int| is_piece_at(text, part, separator, k, i)
}

/// Whether a table holds a text in a given line and column.
pub open spec fn has_cell(table: Seq<char>, line: nat, column: nat, text: Seq<char>) -> bool {
    exists|whole: Seq<char>| #[trigger]
        is_piece(table, whole, '\n', line) && is_piece(whole, text, ',', column)
}

proof fn lemma_count_add(a: Seq<char>, b: Seq<char>, c: char)
    ensures
        count_of(a + b, c) == count_of(a, c) + count_of(b, c),
    decreases b.len(),
{
    if b.len() == 0 {
        assert(a + b =~= a);
    } else {
        assert((a + b).drop_last() =~= a + b.drop_last());
        assert((a + b).last() == b.last());
        lemma_count_add(a, b.drop_last(), c);
    }
}

proof fn lemma_count_none(text: Seq<char>, c: char)
    requires
        forall|i: int| 0 <= i < text.len() ==> #[trigger] text[i] != c,
    ensures
        count_of(text, c) == 0,
    decreases text.len(),
{
    if text.len() > 0 {
        assert(text[text.len() - 1] != c);
        lemma_count_none(text.drop_last(), c);
    }
}

proof fn lemma_decimal_is_digits(n: nat)
    ensures
        forall|i: int| 0 <= i < decimal(n).len() ==> '0' <= #[trigger] decimal(n)[i] <= '9',
    decreases n,
{
    assert('0' <= digit(n % 10) <= '9');
    if n >= 10 {
        lemma_decimal_is_digits(n / 10);
        assert(decimal(n) == decimal(n / 10).push(digit(n % 10)));
    } else {
        assert(decimal(n) == seq![digit(n % 10)]);
    }
}

proof fn lemma_decimal_has_none(n: nat, c: char)
    requires
        c == ',' || c == '\n',
    ensures
        count_of(decimal(n), c) == 0,
{
    lemma_decimal_is_digits(n);
    lemma_count_none(decimal(n), c);
}

/// A text between separators is a piece.
proof fn lemma_is_piece(before: Seq<char>, part: Seq<char>, after: Seq<char>, c: char)
    requires
        before.len() == 0 || before.last() == c,
        after.len() == 0 || after[0] == c,
        count_of(part, c) == 0,
    ensures
        is_piece(before + part + after, part, c, count_of(before, c)),
{
    let text = before + part + after;
    let i = before.len() as int;
    assert(text.subrange(i, i + part.len()) =~= part);
    assert(text.take(i) =~= before);
    assert(is_piece_at(text, part, c, count_of(before, c), i));
}

/// A piece stays one in a text that goes on with a separator.
proof fn lemma_piece_in_front(text: Seq<char>, after: Seq<char>, part: Seq<char>, c: char, k: nat)
    requires
        is_piece(text, part, c, k),
        after.len() == 0 || after[0] == c,
    ensures
        is_piece(text + after, part, c, k),
{
    let i = choose|i: int| is_piece_at(text, part, c, k, i);
    let whole = text + after;
    assert(whole.subrange(i, i + part.len()) =~= text.subrange(i, i + part.len()));
    assert(whole.take(i) =~= text.take(i));
    assert(is_piece_at(whole, part, c, k, i));
}

/// A piece is a later one behind further separators.
proof fn lemma_piece_behind(before: Seq<char>, text: Seq<char>, part: Seq<char>, c: char, k: nat)
    requires
        is_piece(text, part, c, k),
        before.len() == 0 || before.last() == c,
    ensures
        is_piece(before + text, part, c, count_of(before, c) + k),
{
    let i = choose|i: int| is_piece_at(text, part, c, k, i);
    let whole = before + text;
    let j = before.len() + i;
    assert(whole.subrange(j, j + part.len()) =~= text.subrange(i, i + part.len()));
    assert(whole.take(j) =~= before + text.take(i));
    lemma_count_add(before, text.take(i), c);
    assert(is_piece_at(whole, part, c, count_of(before, c) + k, j));
}

proof fn lemma_marks()
    ensures
        ""@ == Seq::<char>::empty(),
        ","@ == seq![','],
        "\n"@ == seq!['\n'],
        count_of(","@, ',') == 1,
        count_of(","@, '\n') == 0,
        count_of("\n"@, ',') == 0,
        count_of("\n"@, '\n') == 1,
        count_of(Seq::<char>::empty(), ',') == 0,
        count_of(Seq::<char>::empty(), '\n') == 0,
{
    reveal_strlit("");
    reveal_strlit(",");
    reveal_strlit("\n");
    assert(""@ =~= Seq::<char>::empty());
    assert(","@ =~= seq![',']);
    assert("\n"@ =~= seq!['\n']);
    assert(seq![','].drop_last() =~= Seq::<char>::empty());
    assert(seq!['\n'].drop_last() =~= Seq::<char>::empty());
    assert(seq![','].last() == ',');
    assert(seq!['\n'].last() == '\n');
    reveal_with_fuel(count_of, 2);
}

spec fn comma_after(k: nat) -> Seq<char> {
    if k == 0 {
        ""@
    } else {
        ","@
    }
}

proof fn lemma_cell_counts(runs: Seq<Run>, i: int, k: nat)
    ensures
        count_of(cells(runs, i, k), ',') == (if k == 0 {
            0
        } else {
            (k - 1) as nat
        }),
        count_of(cells(runs, i, k), '\n') == 0,
    decreases k,
{
    lemma_marks();
    if k > 0 {
        let k1 = (k - 1) as nat;
        lemma_cell_counts(runs, i, k1);
        let a = cells(runs, i, k1);
        let comma = comma_after(k1);
        let value = decimal(runs[k - 1].1[i] as nat);
        assert(cells(runs, i, k) == a + comma + value);
        lemma_decimal_has_none(runs[k - 1].1[i] as nat, ',');
        lemma_decimal_has_none(runs[k - 1].1[i] as nat, '\n');
        lemma_count_add(a, comma, ',');
        lemma_count_add(a, comma, '\n');
        lemma_count_add(a + comma, value, ',');
        lemma_count_add(a + comma, value, '\n');
    }
}

proof fn lemma_cell_pieces(runs: Seq<Run>, i: int, k: nat, p: nat)
    requires
        p < k,
    ensures
        is_piece(cells(runs, i, k), decimal(runs[p as int].1[i] as nat), ',', p),
    decreases k,
{
    lemma_marks();
    let k1 = (k - 1) as nat;
    let a = cells(runs, i, k1);
    let comma = comma_after(k1);
    let value = decimal(runs[k - 1].1[i] as nat);
    assert(cells(runs, i, k) == a + comma + value);
    if p == k1 {
        lemma_cell_counts(runs, i, k1);
        lemma_decimal_has_none(runs[k - 1].1[i] as nat, ',');
        lemma_count_add(a, comma, ',');
        if k1 == 0 {
            assert(a + comma =~= Seq::<char>::empty());
        }
        lemma_is_piece(a + comma, value, Seq::empty(), ',');
        assert(a + comma + value + Seq::<char>::empty() =~= a + comma + value);
    } else {
        lemma_cell_pieces(runs, i, k1, p);
        lemma_piece_in_front(a, comma + value, decimal(runs[p as int].1[i] as nat), ',', p);
        assert(a + (comma + value) =~= a + comma + value);
    }
}

proof fn lemma_key_has_none(phase: Phase, c: char)
    requires
        c == ',' || c == '\n',
    ensures
        count_of(phase.spec_key() + "_ns"@, c) == 0,
{
    reveal_strlit("sign_init");
    reveal_strlit("sign");
    reveal_strlit("verify");
    reveal_strlit("total");
    reveal_strlit("_ns");
    lemma_count_none(phase.spec_key() + "_ns"@, c);
}

proof fn lemma_name_counts(runs: Seq<Run>, k: nat)
    ensures
        count_of(column_names(runs, k), ',') == (if k == 0 {
            0
        } else {
            (k - 1) as nat
        }),
        count_of(column_names(runs, k), '\n') == 0,
    decreases k,
{
    lemma_marks();
    if k > 0 {
        let k1 = (k - 1) as nat;
        lemma_name_counts(runs, k1);
        let a = column_names(runs, k1);
        let comma = comma_after(k1);
        let key = runs[k - 1].0.spec_key();
        let name = key + "_ns"@;
        assert(column_names(runs, k) == a + comma + key + "_ns"@);
        assert(column_names(runs, k) =~= a + comma + name);
        lemma_key_has_none(runs[k - 1].0, ',');
        lemma_key_has_none(runs[k - 1].0, '\n');
        lemma_count_add(a, comma, ',');
        lemma_count_add(a, comma, '\n');
        lemma_count_add(a + comma, name, ',');
        lemma_count_add(a + comma, name, '\n');
    }
}

proof fn lemma_name_pieces(runs: Seq<Run>, k: nat, p: nat)
    requires
        p < k,
    ensures
        is_piece(column_names(runs, k), runs[p as int].0.spec_key() + "_ns"@, ',', p),
    decreases k,
{
    lemma_marks();
    let k1 = (k - 1) as nat;
    let a = column_names(runs, k1);
    let comma = comma_after(k1);
    let key = runs[k - 1].0.spec_key();
    let name = key + "_ns"@;
    assert(column_names(runs, k) == a + comma + key + "_ns"@);
    assert(column_names(runs, k) =~= a + comma + name);
    if p == k1 {
        lemma_name_counts(runs, k1);
        lemma_key_has_none(runs[k - 1].0, ',');
        lemma_count_add(a, comma, ',');
        if k1 == 0 {
            assert(a + comma =~= Seq::<char>::empty());
        }
        lemma_is_piece(a + comma, name, Seq::empty(), ',');
        assert(a + comma + name + Seq::<char>::empty() =~= a + comma + name);
    } else {
        lemma_name_pieces(runs, k1, p);
        lemma_piece_in_front(a, comma + name, runs[p as int].0.spec_key() + "_ns"@, ',', p);
        assert(a + (comma + name) =~= a + comma + name);
    }
}

spec fn line_at(runs: Seq<Run>, i: nat) -> Seq<char> {
    decimal(i) + ","@ + cells(runs, i as int, runs.len())
}

proof fn lemma_line_counts(runs: Seq<Run>, n: nat)
    ensures
        count_of(lines(runs, n), '\n') == n,
        n > 0 ==> lines(runs, n).len() > 0 && lines(runs, n).last() == '\n',
        count_of(line_at(runs, n), '\n') == 0,
    decreases n,
{
    lemma_marks();
    lemma_decimal_has_none(n, '\n');
    lemma_cell_counts(runs, n as int, runs.len());
    lemma_count_add(decimal(n), ","@, '\n');
    lemma_count_add(decimal(n) + ","@, cells(runs, n as int, runs.len()), '\n');
    if n > 0 {
        let n1 = (n - 1) as nat;
        lemma_line_counts(runs, n1);
        let a = lines(runs, n1);
        let line = line_at(runs, n1);
        assert(lines(runs, n) =~= a + line + "\n"@);
        lemma_count_add(a, line, '\n');
        lemma_count_add(a + line, "\n"@, '\n');
    }
}

proof fn lemma_line_pieces(runs: Seq<Run>, n: nat, i: nat)
    requires
        i < n,
    ensures
        is_piece(lines(runs, n), line_at(runs, i), '\n', i),
    decreases n,
{
    lemma_marks();
    let n1 = (n - 1) as nat;
    let a = lines(runs, n1);
    let line = line_at(runs, n1);
    assert(lines(runs, n) =~= a + line + "\n"@);
    lemma_line_counts(runs, n1);
    if i == n1 {
        if n1 == 0 {
            assert(a =~= Seq::<char>::empty());
        }
        lemma_is_piece(a, line, "\n"@, '\n');
    } else {
        lemma_line_pieces(runs, n1, i);
        assert(a.len() > 0 && a.last() == '\n');
        lemma_piece_in_line(a, line + "\n"@, line_at(runs, i), i);
        assert(a + (line + "\n"@) =~= a + line + "\n"@);
    }
}

/// A whole line stays one whatever follows the lines.
proof fn lemma_piece_in_line(text: Seq<char>, after: Seq<char>, part: Seq<char>, k: nat)
    requires
        is_piece(text, part, '\n', k),
        text.len() > 0,
        text.last() == '\n',
        k < count_of(text, '\n'),
    ensures
        is_piece(text + after, part, '\n', k),
{
    let i = choose|i: int| is_piece_at(text, part, '\n', k, i);
    let whole = text + after;
    let end = i + part.len();
    assert(whole.subrange(i, end) =~= text.subrange(i, end));
    assert(whole.take(i) =~= text.take(i));
    if end == text.len() {
        assert(text =~= text.take(i) + part);
        lemma_count_add(text.take(i), part, '\n');
    }
    assert(is_piece_at(whole, part, '\n', k, i));
}

/// The first line names the columns: the iteration, then the phases by their
/// keys.
#[verifier::spinoff_prover]
#[verifier::rlimit(60)]
pub proof fn law_csv_names_its_columns(runs: Seq<Run>, p: nat)
    requires
        p < runs.len(),
    ensures
        has_cell(csv_of(runs), 0, 0, "iteration"@),
        has_cell(csv_of(runs), 0, p + 1, runs[p as int].0.spec_key() + "_ns"@),
{
    let names = column_names(runs, runs.len());
    let head = "iteration,"@ + names;
    lemma_name_counts(runs, runs.len());
    lemma_heading_counts();
    lemma_count_add("iteration,"@, names, '\n');
    assert(is_piece(csv_of(runs), head, '\n', 0)) by {
        lemma_marks();
        lemma_is_piece(Seq::empty(), head, "\n"@ + lines(runs, depth(runs)), '\n');
        assert(csv_of(runs) =~= Seq::<char>::empty() + head + ("\n"@ + lines(runs, depth(runs))));
    }
    assert(is_piece(head, "iteration"@, ',', 0)) by {
        lemma_marks();
        lemma_is_piece(Seq::empty(), "iteration"@, ","@ + names, ',');
        assert(head =~= Seq::<char>::empty() + "iteration"@ + (","@ + names));
    }
    lemma_name_pieces(runs, runs.len(), p);
    lemma_piece_behind("iteration,"@, names, runs[p as int].0.spec_key() + "_ns"@, ',', p);
}

proof fn lemma_heading_counts()
    ensures
        "iteration,"@ == "iteration"@ + ","@,
        "iteration,"@.last() == ',',
        "iteration,"@.len() > 0,
        count_of("iteration"@, ',') == 0,
        count_of("iteration,"@, ',') == 1,
        count_of("iteration,"@, '\n') == 0,
{
    lemma_marks();
    reveal_strlit("iteration");
    reveal_strlit("iteration,");
    assert("iteration,"@ =~= "iteration"@ + ","@);
    lemma_count_none("iteration"@, ',');
    lemma_count_none("iteration,"@, '\n');
    lemma_count_add("iteration"@, ","@, ',');
}

/// Behind it comes one line per iteration: its number, then in the column of
/// each phase what that iteration took in the phase.
pub proof fn law_csv_holds_the_samples(runs: Seq<Run>, i: nat, p: nat)
    requires
        p < runs.len(),
        i < runs[0].1.len(),
    ensures
        has_cell(csv_of(runs), i + 1, 0, decimal(i)),
        has_cell(csv_of(runs), i + 1, p + 1, decimal(runs[p as int].1[i as int] as nat)),
{
    lemma_marks();
    let names = column_names(runs, runs.len());
    let head = "iteration,"@ + names + "\n"@;
    lemma_name_counts(runs, runs.len());
    lemma_heading_counts();
    lemma_count_add("iteration,"@, names, '\n');
    lemma_count_add("iteration,"@ + names, "\n"@, '\n');
    lemma_line_pieces(runs, depth(runs), i);
    let line = line_at(runs, i);
    lemma_piece_behind(head, lines(runs, depth(runs)), line, '\n', i);
    assert(is_piece(csv_of(runs), line, '\n', i + 1));
    let values = cells(runs, i as int, runs.len());
    lemma_decimal_has_none(i, ',');
    lemma_count_add(decimal(i), ","@, ',');
    lemma_is_piece(Seq::empty(), decimal(i), ","@ + values, ',');
    assert(line =~= Seq::<char>::empty() + decimal(i) + (","@ + values));
    lemma_cell_pieces(runs, i as int, runs.len(), p);
    lemma_piece_behind(
        decimal(i) + ","@,
        values,
        decimal(runs[p as int].1[i as int] as nat),
        ',',
        p,
    );
}

/// A text or an error stands for its characters.
pub proof fn law_texts_stand_for_their_characters(text: String)
    ensures
        text_or_text(Ok(text)) == Ok::<Seq<char>, Seq<char>>(text@),
        text_or_text(Err(text)) == Err::<Seq<char>, Seq<char>>(text@),
{
}

} // verus!
