//! Reading BeamNG JSON: the documents the outside parsers read, the order
//! in which they are tried, and the repair of the missing commas found in
//! some stock configs.
use vstd::prelude::*;

use crate::error::AppError;
use crate::json::{JsonModel, JsonValue};
use crate::text::{chars_of, concat, has_prefix, is_ws, is_ws_exec, string_of, trim, trim_chars, trim_end, trim_end_chars, trim_start, views};

verus! {

// ---------------------------------------------------------------------------
// What the outside parsers decide
// ---------------------------------------------------------------------------

#[verifier::external_type_specification]
#[verifier::external_body]
pub struct ExSerdeJsonValue(serde_json::Value);

/// What `serde_json::from_str::<serde_json::Value>` makes of a text: the
/// document it reads, in the library's model (numbers by the text that
/// `serde_json` writes for them, object entries in the order of its map),
/// or the message of its error.
pub uninterp spec fn serde_json_document(text: Seq<char>) -> Result<JsonModel, Seq<char>>;

/// What `json5::from_str::<serde_json::Value>` makes of a text: the
/// document it reads, in the library's model as for
/// [`serde_json_document`], or the message of its error.
pub uninterp spec fn json5_document(text: Seq<char>) -> Result<JsonModel, Seq<char>>;

/// Turns a `serde_json::Value` into the library's value, one for one:
/// numbers by the text `serde_json` writes for them, object entries in the
/// order of its map. The parse wrappers below state what comes out.
#[verifier::external_body]
fn json_value_from_serde(v: serde_json::Value) -> (r: JsonValue) {
    match v {
        serde_json::Value::Null => JsonValue::Null,
        serde_json::Value::Bool(b) => JsonValue::Bool(b),
        serde_json::Value::Number(n) => JsonValue::Number(n.to_string()),
        serde_json::Value::String(s) => JsonValue::Str(s),
        serde_json::Value::Array(a) => JsonValue::Array(a.into_iter().map(json_value_from_serde).collect()),
        serde_json::Value::Object(m) => JsonValue::Object(
            m.into_iter().map(|(k, x)| (k, json_value_from_serde(x))).collect(),
        ),
    }
}

/// Calls `serde_json::from_str::<serde_json::Value>`: the document read, as
/// the library's value, or the error's message.
#[verifier::external_body]
fn strict_json_parse(text: &str) -> (r: Result<JsonValue, String>)
    ensures
        match r {
            Ok(v) => serde_json_document(text@) == Ok::<JsonModel, Seq<char>>(v.model()),
            Err(m) => serde_json_document(text@) == Err::<JsonModel, Seq<char>>(m@),
        },
{
    match serde_json::from_str::<serde_json::Value>(text) {
        Ok(v) => Ok(json_value_from_serde(v)),
        Err(err) => Err(err.to_string()),
    }
}

/// Calls `json5::from_str::<serde_json::Value>`: the document read, as the
/// library's value, or the error's message.
#[verifier::external_body]
fn json5_parse(text: &str) -> (r: Result<JsonValue, String>)
    ensures
        match r {
            Ok(v) => json5_document(text@) == Ok::<JsonModel, Seq<char>>(v.model()),
            Err(m) => json5_document(text@) == Err::<JsonModel, Seq<char>>(m@),
        },
{
    match json5::from_str::<serde_json::Value>(text) {
        Ok(v) => Ok(json_value_from_serde(v)),
        Err(err) => Err(err.to_string()),
    }
}

/// What `serde_json::to_string_pretty` writes for a document turned into a
/// `serde_json::Value` (object entries in the order of its map); `None`
/// where a number's text is not a JSON number.
pub uninterp spec fn pretty_json(doc: JsonModel) -> Option<Seq<char>>;

/// Turns the library's value into a `serde_json::Value`, one for one;
/// `None` where a number's text does not parse as a `serde_json::Number`.
/// [`pretty_json_text`] states what comes of it.
#[verifier::external_body]
fn json_value_to_serde(v: &JsonValue) -> (r: Option<serde_json::Value>) {
    Some(match v {
        JsonValue::Null => serde_json::Value::Null,
        JsonValue::Bool(b) => serde_json::Value::Bool(*b),
        JsonValue::Number(t) => serde_json::Value::Number(t.parse().ok()?),
        JsonValue::Str(s) => serde_json::Value::String(s.clone()),
        JsonValue::Array(a) => serde_json::Value::Array(a.iter().map(json_value_to_serde).collect::<Option<_>>()?),
        JsonValue::Object(es) => serde_json::Value::Object(
            es.iter().map(|(k, x)| Some((k.clone(), json_value_to_serde(x)?))).collect::<Option<_>>()?,
        ),
    })
}

/// Calls `serde_json::to_string_pretty` on the document as a
/// `serde_json::Value`: the text it writes, `None` where the document cannot
/// be turned into one.
#[verifier::external_body]
fn pretty_json_text(value: &JsonValue) -> (r: Option<String>)
    ensures
        match r {
            Some(t) => pretty_json(value.model()) == Some(t@),
            None => pretty_json(value.model()) is None,
        },
{
    match json_value_to_serde(value) {
        Some(v) => serde_json::to_string_pretty(&v).ok(),
        None => None,
    }
}

/// A document as pretty-printed JSON; refused where a number's text is not
/// a JSON number.
pub fn to_pretty_json(value: &JsonValue) -> (r: Result<String, AppError>)
    ensures
        match r {
            Ok(t) => pretty_json(value.model()) == Some(t@),
            Err(e) => pretty_json(value.model()) is None && e.message@ == "JSON error: a number is not a JSON number"@,
        },
{
    match pretty_json_text(value) {
        Some(t) => Ok(t),
        None => Err(AppError::msg("JSON error: a number is not a JSON number".to_owned())),
    }
}

// ---------------------------------------------------------------------------
// Lines
// ---------------------------------------------------------------------------

/// The pieces of `s` between occurrences of `sep` (as `str::split`).
pub open spec fn split_on(s: Seq<char>, sep: char) -> Seq<Seq<char>>
    decreases s.len(),
{
    if s.len() == 0 {
        seq![Seq::empty()]
    } else {
        let p = split_on(s.drop_last(), sep);
        if s.last() == sep {
            p.push(Seq::empty())
        } else {
            p.update(p.len() - 1, p.last().push(s.last()))
        }
    }
}

/// A line without its final `\r`, if it has one.
pub open spec fn strip_cr(l: Seq<char>) -> Seq<char> {
    if l.len() > 0 && l.last() == '\r' {
        l.drop_last()
    } else {
        l
    }
}

/// The lines of a text (as `str::lines`): split at `\n`, a final empty piece
/// dropped, and a `\r` before a `\n` removed.
pub open spec fn lines(s: Seq<char>) -> Seq<Seq<char>> {
    let p = split_on(s, '\n');
    let q = if p.last().len() == 0 {
        p.drop_last()
    } else {
        p
    };
    Seq::new(q.len(), |i: int| if i < p.len() - 1 { strip_cr(q[i]) } else { q[i] })
}

proof fn lemma_lines_shape(s: Seq<char>)
    ensures
        ({
            let p = split_on(s, '\n');
            &&& p.len() >= 1
            &&& lines(s).len() == if p.last().len() == 0 { p.len() - 1 } else { p.len() as int }
            &&& forall|k: int| 0 <= k < p.len() - 1 ==> #[trigger] lines(s)[k] == strip_cr(p[k])
            &&& p.last().len() != 0 ==> lines(s)[p.len() - 1] == p.last()
        }),
{
    lemma_split_on_nonempty(s, '\n');
}

/// The pieces joined with `sep` between consecutive ones.
pub open spec fn join(parts: Seq<Seq<char>>, sep: Seq<char>) -> Seq<char>
    decreases parts.len(),
{
    if parts.len() == 0 {
        Seq::empty()
    } else if parts.len() == 1 {
        parts[0]
    } else {
        join(parts.drop_last(), sep) + sep + parts.last()
    }
}

/// Line `i` after repair: a line whose text ends with `"` and whose next line
/// starts with `"` gets a comma after its last non-blank character.
pub open spec fn repaired_line(ls: Seq<Seq<char>>, i: int) -> Seq<char> {
    let t = trim_end(ls[i]);
    if i + 1 < ls.len() && t.len() > 0 && t.last() == '"' && has_prefix(trim(ls[i + 1]), seq!['"']) {
        t.push(',')
    } else {
        ls[i]
    }
}

/// The repaired text: repaired lines joined with `\n`.
pub open spec fn repaired_text(text: Seq<char>) -> Seq<char> {
    let ls = lines(text);
    join(Seq::new(ls.len(), |i: int| repaired_line(ls, i)), seq!['\n'])
}

pub proof fn lemma_split_on_nonempty(s: Seq<char>, sep: char)
    ensures
        split_on(s, sep).len() >= 1,
    decreases s.len(),
{
    if s.len() > 0 {
        lemma_split_on_nonempty(s.drop_last(), sep);
    }
}

/// The views of a sequence of character vectors.
pub open spec fn cviews(v: Seq<Vec<char>>) -> Seq<Seq<char>> {
    v.map_values(|x: Vec<char>| x@)
}

/// The pieces of a string between occurrences of `sep` (as `str::split`).
pub fn split_str(s: &str, sep: char) -> (r: Vec<String>)
    ensures
        views(r@) == split_on(s@, sep),
{
    let v = crate::text::chars_of(s);
    let mut done: Vec<String> = Vec::new();
    let mut cur = String::new();
    let mut i: usize = 0;
    while i < v.len()
        invariant
            i <= v@.len(),
            v@ == s@,
            split_on(v@.take(i as int), sep) == views(done@).push(cur@),
        decreases v@.len() - i,
    {
        proof {
            assert(v@.take(i + 1).drop_last() =~= v@.take(i as int));
            assert(v@.take(i + 1).last() == v@[i as int]);
        }
        if v[i] == sep {
            let finished = cur;
            let ghost d0 = views(done@);
            done.push(finished);
            cur = String::new();
            assert(views(done@) =~= d0.push(finished@));
            assert(views(done@).push(cur@) =~= split_on(v@.take(i as int), sep).push(Seq::empty()));
        } else {
            let ghost before = cur@;
            cur.push(v[i]);
            proof {
                let p = split_on(v@.take(i as int), sep);
                assert(p.last() == before);
                assert(views(done@).push(cur@) =~= p.update(p.len() - 1, p.last().push(v@[i as int])));
            }
        }
        i = i + 1;
    }
    assert(v@.take(v@.len() as int) =~= v@);
    let ghost d1 = views(done@);
    done.push(cur);
    assert(views(done@) =~= d1.push(views(done@).last()));
    done
}

/// Splits a character sequence at `\n` into its lines.
fn split_lines(v: &[char]) -> (r: Vec<Vec<char>>)
    ensures
        cviews(r@) == lines(v@),
{
    let mut done: Vec<Vec<char>> = Vec::new();
    let mut cur: Vec<char> = Vec::new();
    let mut i: usize = 0;
    while i < v.len()
        invariant
            i <= v@.len(),
            split_on(v@.take(i as int), '\n') == cviews(done@).push(cur@),
        decreases v@.len() - i,
    {
        proof {
            assert(v@.take(i + 1).drop_last() =~= v@.take(i as int));
            assert(v@.take(i + 1).last() == v@[i as int]);
        }
        if v[i] == '\n' {
            let finished = cur;
            done.push(finished);
            cur = Vec::new();
            assert(cviews(done@).push(cur@) =~= split_on(v@.take(i as int), '\n').push(Seq::empty()));
        } else {
            let ghost before = cur@;
            cur.push(v[i]);
            proof {
                let p = split_on(v@.take(i as int), '\n');
                assert(p.last() == before);
                assert(cviews(done@).push(cur@) =~= p.update(p.len() - 1, p.last().push(v@[i as int])));
            }
        }
        i = i + 1;
    }
    assert(v@.take(v@.len() as int) =~= v@);
    let ghost p = split_on(v@, '\n');
    let ghost pieces_done = cviews(done@);
    assert(p == pieces_done.push(cur@));
    proof {
        lemma_lines_shape(v@);
    }
    let mut out: Vec<Vec<char>> = Vec::new();
    let mut k: usize = 0;
    while k < done.len()
        invariant
            k <= done@.len(),
            p == cviews(done@).push(cur@),
            forall|j: int| 0 <= j < k ==> #[trigger] cviews(out@)[j] == lines(v@)[j],
            out@.len() == k,
            lines(v@).len() >= done@.len(),
            forall|j: int| 0 <= j < p.len() - 1 ==> #[trigger] lines(v@)[j] == strip_cr(p[j]),
        decreases done@.len() - k,
    {
        let line = &done[k];
        let n = line.len();
        let mut stripped: Vec<char> = Vec::new();
        let keep = if n > 0 && line[n - 1] == '\r' {
            n - 1
        } else {
            n
        };
        let mut m: usize = 0;
        while m < keep
            invariant
                keep <= line@.len(),
                m <= keep,
                stripped@ == line@.take(m as int),
            decreases keep - m,
        {
            stripped.push(line[m]);
            m = m + 1;
            assert(stripped@ =~= line@.take(m as int));
        }
        proof {
            assert(p[k as int] == line@);
            if keep < n {
                assert(stripped@ =~= line@.drop_last());
            } else {
                assert(stripped@ =~= line@);
            }
            assert(stripped@ == strip_cr(p[k as int]));
        }
        let ghost before = out@;
        out.push(stripped);
        proof {
            assert(lines(v@)[k as int] == strip_cr(p[k as int]));
            assert forall|j: int| 0 <= j < k + 1 implies #[trigger] cviews(out@)[j] == lines(v@)[j] by {
                if j < k {
                    assert(out@[j] == before[j]);
                    assert(cviews(before)[j] == lines(v@)[j]);
                }
            }
        }
        k = k + 1;
    }
    let ghost before = out@;
    proof {
        lemma_lines_shape(v@);
    }
    if cur.len() > 0 {
        out.push(cur);
        proof {
            assert forall|j: int| 0 <= j < out@.len() implies #[trigger] cviews(out@)[j] == lines(v@)[j] by {
                if j < before.len() {
                    assert(out@[j] == before[j]);
                    assert(cviews(before)[j] == lines(v@)[j]);
                } else {
                    assert(p.last() == cviews(out@)[j]);
                }
            }
        }
    }
    assert(cviews(out@) =~= lines(v@));
    out
}

/// Joins lines with `\n`.
fn join_lines(ls: &Vec<Vec<char>>) -> (r: Vec<char>)
    ensures
        r@ == join(cviews(ls@), seq!['\n']),
{
    let mut out: Vec<char> = Vec::new();
    let mut i: usize = 0;
    while i < ls.len()
        invariant
            i <= ls@.len(),
            out@ == join(cviews(ls@).take(i as int), seq!['\n']),
        decreases ls@.len() - i,
    {
        let ghost before = out@;
        if i > 0 {
            out.push('\n');
        }
        let line = &ls[i];
        let mut m: usize = 0;
        let ghost mid = out@;
        while m < line.len()
            invariant
                m <= line@.len(),
                out@ == mid + line@.take(m as int),
            decreases line@.len() - m,
        {
            out.push(line[m]);
            m = m + 1;
            assert(out@ =~= mid + line@.take(m as int));
        }
        proof {
            assert(line@.take(line@.len() as int) =~= line@);
            let t = cviews(ls@).take(i + 1);
            assert(t.drop_last() =~= cviews(ls@).take(i as int));
            assert(t.last() == line@);
            if i == 0 {
                assert(out@ =~= join(t, seq!['\n']));
            } else {
                assert(out@ =~= join(t, seq!['\n']));
            }
        }
        i = i + 1;
    }
    assert(cviews(ls@).take(ls@.len() as int) =~= cviews(ls@));
    out
}

/// Whether the trimmed line starts with a double quote.
fn trimmed_starts_with_quote(line: &[char]) -> (r: bool)
    ensures
        r == has_prefix(trim(line@), seq!['"']),
{
    let t = trim_chars(line);
    if t.len() == 0 {
        return false;
    }
    let r = t[0] == '"';
    proof {
        assert(t@.subrange(0, 1) =~= seq![t@[0]]);
        if !r {
            assert(t@.subrange(0, 1)[0] != seq!['"'][0]);
        }
    }
    r
}

/// Inserts the commas that some stock configs lack between consecutive
/// `"key": "value"` lines.
pub fn repair_missing_commas(text: &str) -> (r: String)
    ensures
        r@ == repaired_text(text@),
{
    let v = chars_of(text);
    let ls = split_lines(v.as_slice());
    let ghost gl = lines(text@);
    let mut out: Vec<Vec<char>> = Vec::new();
    let mut i: usize = 0;
    while i < ls.len()
        invariant
            i <= ls@.len(),
            cviews(ls@) == gl,
            out@.len() == i,
            forall|j: int| 0 <= j < i ==> #[trigger] cviews(out@)[j] == repaired_line(gl, j),
        decreases ls@.len() - i,
    {
        let trimmed = trim_end_chars(ls[i].as_slice());
        let tn = trimmed.len();
        let cond = i + 1 < ls.len() && tn > 0 && trimmed[tn - 1] == '"'
            && trimmed_starts_with_quote(ls[i + 1].as_slice());
        proof {
            assert(cviews(ls@)[i as int] == ls@[i as int]@);
            if i + 1 < ls@.len() {
                assert(cviews(ls@)[i + 1] == ls@[i + 1]@);
            }
            if tn > 0 {
                assert(trimmed@.last() == trimmed@[tn - 1]);
            }
        }
        let ghost before = out@;
        if cond {
            let mut line = trimmed;
            line.push(',');
            out.push(line);
        } else {
            let line = ls[i].clone();
            proof {
                assert(line@ =~= ls@[i as int]@);
            }
            out.push(line);
        }
        proof {
            assert(cviews(out@)[i as int] == repaired_line(gl, i as int));
            assert forall|j: int| 0 <= j < i + 1 implies #[trigger] cviews(out@)[j] == repaired_line(gl, j) by {
                if j < i {
                    assert(out@[j] == before[j]);
                    assert(cviews(before)[j] == repaired_line(gl, j));
                }
            }
        }
        i = i + 1;
    }
    let joined = join_lines(&out);
    proof {
        assert(cviews(out@) =~= Seq::new(gl.len(), |k: int| repaired_line(gl, k)));
    }
    string_of(joined.as_slice())
}

// ---------------------------------------------------------------------------
// Parsing decisions
// ---------------------------------------------------------------------------

/// The document that `parse_beamng_json` reads from a text, or the error
/// it reports: strict JSON when `serde_json` reads it, else JSON5, else JSON5
/// after repairing missing commas; otherwise the JSON5 error of the text as
/// given.
pub open spec fn beamng_document(text: Seq<char>) -> Result<JsonModel, Seq<char>> {
    match serde_json_document(text) {
        Ok(m) => Ok(m),
        Err(_) => match json5_document(text) {
            Ok(m) => Ok(m),
            Err(e) => match json5_document(repaired_text(text)) {
                Ok(m) => Ok(m),
                Err(_) => Err(seq!['J', 'S', 'O', 'N', ' ', 'e', 'r', 'r', 'o', 'r', ':', ' '] + e),
            },
        },
    }
}

/// Reads a BeamNG `.pc` text: strict JSON when `serde_json` reads it, else
/// JSON5, else JSON5 after repairing missing commas; an error with the JSON5
/// message of the original text otherwise.
pub fn parse_beamng_json(text: &str) -> (r: Result<JsonValue, AppError>)
    ensures
        match r {
            Ok(v) => beamng_document(text@) == Ok::<JsonModel, Seq<char>>(v.model()),
            Err(e) => beamng_document(text@) == Err::<JsonModel, Seq<char>>(e.message@),
        },
{
    if let Ok(v) = strict_json_parse(text) {
        return Ok(v);
    }
    match json5_parse(text) {
        Ok(v) => Ok(v),
        Err(message) => {
            let repaired = repair_missing_commas(text);
            match json5_parse(repaired.as_str()) {
                Ok(v) => Ok(v),
                Err(_) => {
                    let m = concat("JSON error: ", message.as_str());
                    proof {
                        reveal_strlit("JSON error: ");
                        assert(m@ =~= seq!['J', 'S', 'O', 'N', ' ', 'e', 'r', 'r', 'o', 'r', ':', ' ']
                            + message@);
                    }
                    Err(AppError::msg(m))
                },
            }
        },
    }
}

/// Reads a text as strict JSON (`.jbeam`, info and compatibility files);
/// the error carries `serde_json`'s message.
pub fn parse_strict_json(text: &str) -> (r: Result<JsonValue, AppError>)
    ensures
        match r {
            Ok(v) => serde_json_document(text@) == Ok::<JsonModel, Seq<char>>(v.model()),
            Err(e) => serde_json_document(text@) == Err::<JsonModel, Seq<char>>(e.message@),
        },
{
    match strict_json_parse(text) {
        Ok(v) => Ok(v),
        Err(m) => Err(AppError::msg(m)),
    }
}

/// Checks that a text reads as BeamNG JSON (see [`parse_beamng_json`]).
pub fn validate_beamng_json(text: &str) -> (r: Result<(), AppError>)
    ensures
        r is Ok <==> beamng_document(text@) is Ok,
        r matches Err(e) ==> beamng_document(text@) == Err::<JsonModel, Seq<char>>(e.message@),
{
    match parse_beamng_json(text) {
        Ok(_) => Ok(()),
        Err(e) => Err(e),
    }
}

// ---------------------------------------------------------------------------
// Laws of the repair
// ---------------------------------------------------------------------------

/// Splitting after text without a separator only lengthens the last piece.
proof fn lemma_split_append(x: Seq<char>, b: Seq<char>, sep: char)
    requires
        !b.contains(sep),
    ensures
        split_on(x + b, sep) == split_on(x, sep).update(
            split_on(x, sep).len() - 1,
            split_on(x, sep).last() + b,
        ),
    decreases b.len(),
{
    lemma_split_on_nonempty(x, sep);
    if b.len() == 0 {
        assert(x + b =~= x);
        assert(split_on(x, sep).last() + b =~= split_on(x, sep).last());
        assert(split_on(x, sep).update(split_on(x, sep).len() - 1, split_on(x, sep).last()) =~= split_on(x, sep));
    } else {
        let b0 = b.drop_last();
        assert(!b0.contains(sep)) by {
            if b0.contains(sep) {
                let k = choose|k: int| 0 <= k < b0.len() && b0[k] == sep;
                assert(b[k] == sep);
            }
        }
        lemma_split_append(x, b0, sep);
        assert((x + b).drop_last() =~= x + b0);
        assert((x + b).last() == b.last());
        assert(b.last() != sep) by {
            assert(b[b.len() - 1] == b.last());
        }
        let p = split_on(x, sep);
        assert((p.last() + b0).push(b.last()) =~= p.last() + b);
        assert(split_on(x + b, sep) =~= p.update(p.len() - 1, p.last() + b));
    }
}

/// Splitting lines joined by the separator gives the lines back.
proof fn lemma_split_join(ls: Seq<Seq<char>>, sep: char)
    requires
        ls.len() >= 1,
        forall|k: int| 0 <= k < ls.len() ==> !(#[trigger] ls[k]).contains(sep),
    ensures
        split_on(join(ls, seq![sep]), sep) == ls,
    decreases ls.len(),
{
    if ls.len() == 1 {
        lemma_split_append(Seq::empty(), ls[0], sep);
        assert(Seq::<char>::empty() + ls[0] =~= ls[0]);
        assert(split_on(Seq::<char>::empty(), sep) =~= seq![Seq::<char>::empty()]);
        assert(Seq::<char>::empty() + ls[0] =~= ls[0]);
        assert(seq![Seq::<char>::empty()].update(0, Seq::<char>::empty() + ls[0]) =~= ls);
    } else {
        let d = ls.drop_last();
        lemma_split_join(d, sep);
        let x = join(d, seq![sep]) + seq![sep];
        assert(x.drop_last() =~= join(d, seq![sep]));
        assert(split_on(x, sep) == d.push(Seq::<char>::empty()));
        lemma_split_append(x, ls.last(), sep);
        assert(join(ls, seq![sep]) == x + ls.last());
        assert(Seq::<char>::empty() + ls.last() =~= ls.last());
        assert(d.push(Seq::<char>::empty()).update(d.len() as int, Seq::<char>::empty() + ls.last()) =~= ls);
    }
}

/// The lines of lines joined with `\n` are those lines, when none holds a
/// `\n` or ends with `\r`, and the last is not empty.
proof fn lemma_lines_join(ls: Seq<Seq<char>>)
    requires
        forall|k: int| 0 <= k < ls.len() ==> !(#[trigger] ls[k]).contains('\n') && strip_cr(ls[k]) == ls[k],
        ls.len() > 0 ==> ls.last().len() > 0,
    ensures
        lines(join(ls, seq!['\n'])) == ls,
{
    if ls.len() == 0 {
        assert(split_on(Seq::<char>::empty(), '\n') =~= seq![Seq::<char>::empty()]);
        assert(lines(join(ls, seq!['\n'])) =~= ls);
    } else {
        lemma_split_join(ls, '\n');
        assert(lines(join(ls, seq!['\n'])) =~= ls);
    }
}

/// No character of a line is a line break or a carriage return.
pub open spec fn clean_line(x: Seq<char>) -> bool {
    forall|j: int| 0 <= j < x.len() ==> #[trigger] x[j] != '\n' && x[j] != '\r'
}

/// Pieces hold no separator, and no character the text does not hold.
proof fn lemma_split_pieces(s: Seq<char>, sep: char, c: char)
    requires
        forall|i: int| 0 <= i < s.len() ==> #[trigger] s[i] != c,
    ensures
        forall|k: int, j: int|
            0 <= k < split_on(s, sep).len() && 0 <= j < split_on(s, sep)[k].len() ==> #[trigger] split_on(
                s,
                sep,
            )[k][j] != sep && split_on(s, sep)[k][j] != c,
    decreases s.len(),
{
    if s.len() > 0 {
        let d = s.drop_last();
        assert forall|i: int| 0 <= i < d.len() implies #[trigger] d[i] != c by {
            assert(d[i] == s[i]);
        }
        lemma_split_pieces(d, sep, c);
        lemma_split_on_nonempty(d, sep);
        assert(s[s.len() - 1] == s.last());
    }
}

/// `trim_end` keeps a prefix, ending in a non-blank character when not empty.
proof fn lemma_trim_end_prefix(s: Seq<char>)
    ensures
        trim_end(s).len() <= s.len(),
        trim_end(s) == s.take(trim_end(s).len() as int),
        trim_end(s).len() > 0 ==> !is_ws(trim_end(s).last()),
    decreases s.len(),
{
    if s.len() > 0 && is_ws(s.last()) {
        lemma_trim_end_prefix(s.drop_last());
        assert(s.drop_last().take(trim_end(s).len() as int) =~= s.take(trim_end(s).len() as int));
    } else {
        assert(s.take(s.len() as int) =~= s);
    }
}

/// `trim_end` of a text starting with a non-blank keeps that first character.
proof fn lemma_trim_end_first(y: Seq<char>)
    requires
        y.len() > 0,
        !is_ws(y[0]),
    ensures
        trim_end(y).len() > 0,
        trim_end(y)[0] == y[0],
    decreases y.len(),
{
    if is_ws(y.last()) {
        assert(y.len() > 1);
        assert(y.drop_last()[0] == y[0]);
        lemma_trim_end_first(y.drop_last());
    }
}

/// What `trim_start` leaves starts with a non-blank.
proof fn lemma_trim_start_first(s: Seq<char>)
    ensures
        trim_start(s).len() > 0 ==> !is_ws(trim_start(s)[0]),
    decreases s.len(),
{
    if s.len() > 0 && is_ws(s[0]) {
        lemma_trim_start_first(s.drop_first());
    }
}

/// A character put after a text with a non-blank stays after its start.
proof fn lemma_trim_start_push(u: Seq<char>, c: char)
    requires
        trim_start(u).len() > 0,
    ensures
        trim_start(u.push(c)) == trim_start(u).push(c),
    decreases u.len(),
{
    if u.len() > 0 && is_ws(u[0]) {
        assert(u.push(c).drop_first() =~= u.drop_first().push(c));
        lemma_trim_start_push(u.drop_first(), c);
    }
}

/// A prefix ending in a non-blank starts, once trimmed, as the whole text.
proof fn lemma_trim_start_take(x: Seq<char>, n: int)
    requires
        0 < n <= x.len(),
        !is_ws(x[n - 1]),
    ensures
        trim_start(x.take(n)).len() > 0,
        trim_start(x).len() > 0,
        trim_start(x.take(n))[0] == trim_start(x)[0],
    decreases n,
{
    if is_ws(x[0]) {
        assert(n > 1);
        assert(x.take(n).drop_first() =~= x.drop_first().take(n - 1));
        assert(x.drop_first()[n - 2] == x[n - 1]);
        lemma_trim_start_take(x.drop_first(), n - 1);
    }
}

/// Whether the trimmed text starts with `"`.
pub open spec fn starts_with_quote(x: Seq<char>) -> bool {
    has_prefix(trim(x), seq!['"'])
}

/// Repairing a line (its end trimmed and a comma added) does not change
/// whether it starts with `"`.
proof fn lemma_quote_start_kept(x: Seq<char>)
    requires
        trim_end(x).len() > 0,
    ensures
        starts_with_quote(trim_end(x).push(',')) == starts_with_quote(x),
{
    let u = trim_end(x);
    lemma_trim_end_prefix(x);
    let n = u.len() as int;
    assert(x[n - 1] == u.last());
    lemma_trim_start_take(x, n);
    lemma_trim_start_first(x);
    lemma_trim_start_push(u, ',');
    let a = trim_start(u.push(','));
    let b = trim_start(x);
    assert(a[0] == b[0]);
    lemma_trim_end_first(a);
    lemma_trim_end_first(b);
    let ta = trim(u.push(','));
    let tb = trim(x);
    assert(ta.len() > 0 && tb.len() > 0 && ta[0] == tb[0]);
    assert(ta.subrange(0, 1) =~= seq![ta[0]]);
    assert(tb.subrange(0, 1) =~= seq![tb[0]]);
}

/// A repaired line is left alone by a second repair.
proof fn lemma_repair_stable(ls: Seq<Seq<char>>, i: int)
    requires
        0 <= i < ls.len(),
    ensures
        repaired_line(Seq::new(ls.len(), |j: int| repaired_line(ls, j)), i) == repaired_line(ls, i),
{
    let r = Seq::new(ls.len(), |j: int| repaired_line(ls, j));
    let t = trim_end(ls[i]);
    if i + 1 < ls.len() && t.len() > 0 && t.last() == '"' && has_prefix(trim(ls[i + 1]), seq!['"']) {
        let ri = t.push(',');
        assert(r[i] == ri);
        assert(trim_end(ri) == ri);
    } else {
        assert(r[i] == ls[i]);
        if i + 1 < ls.len() {
            let n = ls[i + 1];
            let tn = trim_end(n);
            if tn.len() > 0 && tn.last() == '"' && i + 2 < ls.len() && has_prefix(trim(ls[i + 2]), seq!['"']) {
                lemma_quote_start_kept(n);
                assert(r[i + 1] == tn.push(','));
            } else {
                assert(r[i + 1] == n);
            }
        }
    }
}

/// A repaired line of a text without `\r` is clean, and only the last line
/// may stay as it was at the end.
proof fn lemma_repaired_clean(ls: Seq<Seq<char>>, i: int)
    requires
        0 <= i < ls.len(),
        clean_line(ls[i]),
    ensures
        clean_line(repaired_line(ls, i)),
        i == ls.len() - 1 ==> repaired_line(ls, i) == ls[i],
{
    let t = trim_end(ls[i]);
    lemma_trim_end_prefix(ls[i]);
    assert forall|j: int| 0 <= j < t.len() implies #[trigger] t[j] != '\n' && t[j] != '\r' by {
        assert(t[j] == ls[i][j]);
    }
    assert forall|j: int| 0 <= j < t.push(',').len() implies #[trigger] t.push(',')[j] != '\n' && t.push(',')[j]
        != '\r' by {
        if j < t.len() {
            assert(t.push(',')[j] == t[j]);
        }
    }
}

/// The repair is stable and keeps the lines: for a text without `\r` whose
/// last line is not empty, the repaired text has one line per line, each
/// the repaired line, and repairing it again changes nothing.
pub proof fn law_repair_idempotent(t: Seq<char>)
    requires
        forall|i: int| 0 <= i < t.len() ==> #[trigger] t[i] != '\r',
        lines(t).len() > 0 ==> lines(t).last().len() > 0,
    ensures
        lines(repaired_text(t)) == Seq::new(lines(t).len(), |i: int| repaired_line(lines(t), i)),
        repaired_text(repaired_text(t)) == repaired_text(t),
{
    let ls = lines(t);
    let r = Seq::new(ls.len(), |i: int| repaired_line(ls, i));
    let p = split_on(t, '\n');
    lemma_lines_shape(t);
    lemma_split_pieces(t, '\n', '\r');
    assert forall|k: int| 0 <= k < ls.len() implies clean_line(#[trigger] ls[k]) by {
        assert(k < p.len());
        assert forall|j: int| 0 <= j < p[k].len() implies #[trigger] p[k][j] != '\n' && p[k][j] != '\r' by {}
        if k < p.len() - 1 {
            assert(ls[k] == strip_cr(p[k]));
            if p[k].len() > 0 {
                assert(p[k][p[k].len() - 1] == p[k].last());
            }
            assert(strip_cr(p[k]) == p[k]);
        } else {
            assert(ls[k] == p[k]);
        }
    }
    assert forall|k: int| 0 <= k < r.len() implies !(#[trigger] r[k]).contains('\n') && strip_cr(r[k]) == r[k] by {
        lemma_repaired_clean(ls, k);
        if r[k].contains('\n') {
            let j = choose|j: int| 0 <= j < r[k].len() && r[k][j] == '\n';
            assert(r[k][j] != '\n');
        }
        if r[k].len() > 0 {
            assert(r[k][r[k].len() - 1] == r[k].last());
        }
    }
    if ls.len() > 0 {
        lemma_repaired_clean(ls, ls.len() - 1);
        assert(r.last() == ls.last());
    }
    lemma_lines_join(r);
    assert forall|i: int| 0 <= i < r.len() implies #[trigger] repaired_line(r, i) == r[i] by {
        lemma_repair_stable(ls, i);
    }
    assert(Seq::new(r.len(), |i: int| repaired_line(r, i)) =~= r);
}

} // verus!
