//! The JSON text of the persisted documents: the task collection, and the
//! settings object. The spec functions here define the document format
//! character by character; the writers are proved to emit exactly that
//! text, and the strict readers are proved exact in both directions: they
//! accept a text if and only if it is the canonical rendering of some
//! value, and then return a value with that rendering.
//!
//! The canonical text is deliberately compact single-line JSON, with
//! priorities stored under the domain codec's lower-case labels; documents
//! pretty-printed or otherwise reformatted by other serializers are valid
//! JSON of the same data and are read through the embedding program's
//! fallback decoder instead.

use vstd::prelude::*;
use vstd::string::{StrSliceExecFns, StringExecFns};
use crate::models::{
    Attachment, AttachmentView, Priority, Settings, SettingsView, Task, TaskView, priority_label,
};
use crate::roundtrip::{
    lemma_assoc, lemma_dec_leading_nonzero, lemma_dec_prefix_le, lemma_dec_digits_are_digits,
    lemma_dec_digits_injective, lemma_esc_char_shape, lemma_esc_str_first,
    lemma_hex_digit_injective, lemma_index_at, lemma_starts_with,
};

verus! {

/// The hexadecimal digit character for `n` (lower case).
pub open spec fn hex_digit(n: int) -> char {
    if n == 0 {
        '0'
    } else if n == 1 {
        '1'
    } else if n == 2 {
        '2'
    } else if n == 3 {
        '3'
    } else if n == 4 {
        '4'
    } else if n == 5 {
        '5'
    } else if n == 6 {
        '6'
    } else if n == 7 {
        '7'
    } else if n == 8 {
        '8'
    } else if n == 9 {
        '9'
    } else if n == 10 {
        'a'
    } else if n == 11 {
        'b'
    } else if n == 12 {
        'c'
    } else if n == 13 {
        'd'
    } else if n == 14 {
        'e'
    } else {
        'f'
    }
}

/// JSON escaping of one character: quote and backslash get a backslash
/// escape, control characters a `\u00XX` escape, everything else stands as
/// itself.
pub open spec fn esc_char(c: char) -> Seq<char> {
    if c == '"' {
        seq!['\\', '"']
    } else if c == '\\' {
        seq!['\\', '\\']
    } else if (c as u32) < 0x20 {
        seq!['\\', 'u', '0', '0', hex_digit((c as u32) as int / 16), hex_digit((c as u32) as int % 16)]
    } else {
        seq![c]
    }
}

/// JSON escaping of a whole string body.
pub open spec fn esc_str(s: Seq<char>) -> Seq<char>
    decreases s.len(),
{
    if s.len() == 0 {
        Seq::<char>::empty()
    } else {
        esc_str(s.drop_last()) + esc_char(s.last())
    }
}

/// A JSON string literal: the escaped body between double quotes.
pub open spec fn json_str_lit(s: Seq<char>) -> Seq<char> {
    seq!['"'] + esc_str(s) + seq!['"']
}

/// An optional string: `null` when absent.
pub open spec fn json_opt_str(o: Option<Seq<char>>) -> Seq<char> {
    match o {
        None => "null"@,
        Some(s) => json_str_lit(s),
    }
}

/// A JSON boolean.
pub open spec fn json_bool(b: bool) -> Seq<char> {
    if b {
        "true"@
    } else {
        "false"@
    }
}

/// The decimal rendering of a number, most significant digit first.
pub open spec fn dec_digits(n: nat) -> Seq<char>
    decreases n,
{
    if n < 10 {
        seq![hex_digit(n as int)]
    } else {
        dec_digits(n / 10).push(hex_digit((n % 10) as int))
    }
}

/// A decimal digit character.
pub open spec fn is_digit_char(c: char) -> bool {
    c == '0' || c == '1' || c == '2' || c == '3' || c == '4' || c == '5' || c == '6' || c == '7'
        || c == '8' || c == '9'
}

/// Relies on String::push: appends exactly one character.
#[verifier::external_body]
fn push_char(out: &mut String, c: char)
    ensures
        final(out)@ == old(out)@.push(c),
{
    out.push(c);
}

fn hex_char(n: u32) -> (c: char)
    requires
        n < 16,
    ensures
        c == hex_digit(n as int),
{
    if n == 0 {
        '0'
    } else if n == 1 {
        '1'
    } else if n == 2 {
        '2'
    } else if n == 3 {
        '3'
    } else if n == 4 {
        '4'
    } else if n == 5 {
        '5'
    } else if n == 6 {
        '6'
    } else if n == 7 {
        '7'
    } else if n == 8 {
        '8'
    } else if n == 9 {
        '9'
    } else if n == 10 {
        'a'
    } else if n == 11 {
        'b'
    } else if n == 12 {
        'c'
    } else if n == 13 {
        'd'
    } else if n == 14 {
        'e'
    } else {
        'f'
    }
}

fn write_escaped_char(out: &mut String, c: char)
    ensures
        final(out)@ == old(out)@ + esc_char(c),
{
    if c == '"' {
        push_char(out, '\\');
        push_char(out, '"');
        proof {
            assert(out@ =~= old(out)@ + esc_char(c));
        }
    } else if c == '\\' {
        push_char(out, '\\');
        push_char(out, '\\');
        proof {
            assert(out@ =~= old(out)@ + esc_char(c));
        }
    } else if (c as u32) < 0x20 {
        let u = c as u32;
        push_char(out, '\\');
        push_char(out, 'u');
        push_char(out, '0');
        push_char(out, '0');
        push_char(out, hex_char(u / 16));
        push_char(out, hex_char(u % 16));
        proof {
            assert(out@ =~= old(out)@ + esc_char(c));
        }
    } else {
        push_char(out, c);
        proof {
            assert(out@ =~= old(out)@ + esc_char(c));
        }
    }
}

fn write_json_str(out: &mut String, s: &str)
    ensures
        final(out)@ == old(out)@ + json_str_lit(s@),
{
    push_char(out, '"');
    let n = s.unicode_len();
    let mut i: usize = 0;
    while i < n
        invariant
            i <= n,
            n == s@.len(),
            out@ == old(out)@ + seq!['"'] + esc_str(s@.take(i as int)),
        decreases n - i,
    {
        let c = s.get_char(i);
        write_escaped_char(out, c);
        proof {
            assert(s@.take((i + 1) as int).drop_last() =~= s@.take(i as int));
            assert(s@.take((i + 1) as int).last() == s@[i as int]);
        }
        i = i + 1;
    }
    push_char(out, '"');
    proof {
        assert(s@.take(n as int) =~= s@);
        assert(out@ =~= old(out)@ + json_str_lit(s@));
    }
}

fn write_opt_str(out: &mut String, o: &Option<String>)
    ensures
        final(out)@ == old(out)@ + json_opt_str(
            match o {
                Some(s) => Some(s@),
                None => None,
            },
        ),
{
    match o {
        Some(s) => write_json_str(out, s.as_str()),
        None => out.append("null"),
    }
}

fn write_bool(out: &mut String, b: bool)
    ensures
        final(out)@ == old(out)@ + json_bool(b),
{
    if b {
        out.append("true");
    } else {
        out.append("false");
    }
}

fn write_u64(out: &mut String, n: u64)
    ensures
        final(out)@ == old(out)@ + dec_digits(n as nat),
    decreases n,
{
    if n >= 10 {
        write_u64(out, n / 10);
    }
    push_char(out, hex_char((n % 10) as u32));
    proof {
        assert(out@ =~= old(out)@ + dec_digits(n as nat));
    }
}

/// The JSON object of one attachment. The stored key of the file type is
/// `type`.
pub open spec fn json_of_attachment(a: AttachmentView) -> Seq<char> {
    "{\"id\":"@ + json_str_lit(a.id) + ",\"name\":"@ + json_str_lit(a.name) + ",\"size\":"@
        + dec_digits(a.size as nat) + ",\"type\":"@ + json_str_lit(a.file_type) + ",\"data\":"@
        + json_str_lit(a.data) + ",\"created_at\":"@ + json_str_lit(a.created_at) + "}"@
}

/// The comma-joined attachment objects (without the surrounding brackets).
pub open spec fn json_of_attachments(s: Seq<AttachmentView>) -> Seq<char>
    decreases s.len(),
{
    if s.len() == 0 {
        Seq::<char>::empty()
    } else {
        json_of_attachments(s.drop_last()) + (if s.len() == 1 {
            Seq::<char>::empty()
        } else {
            seq![',']
        }) + json_of_attachment(s.last())
    }
}

/// The scalar fields of a task object, in stored order.
pub open spec fn json_of_task_fields(t: TaskView) -> Seq<char> {
    "{\"id\":"@ + json_str_lit(t.id) + ",\"title\":"@ + json_str_lit(t.title)
        + ",\"description\":"@ + json_opt_str(t.description) + ",\"completed\":"@ + json_bool(
        t.completed,
    ) + ",\"priority\":"@ + json_str_lit(priority_label(t.priority)) + ",\"due_date\":"@
        + json_opt_str(t.due_date) + ",\"created_at\":"@ + json_str_lit(t.created_at)
        + ",\"updated_at\":"@ + json_str_lit(t.updated_at)
}

/// The first half of the scalar fields: id, title, description, completed.
pub open spec fn json_of_task_front(t: TaskView) -> Seq<char> {
    "{\"id\":"@ + json_str_lit(t.id) + ",\"title\":"@ + json_str_lit(t.title)
        + ",\"description\":"@ + json_opt_str(t.description) + ",\"completed\":"@ + json_bool(
        t.completed,
    )
}

/// The second half of the scalar fields: priority, due date, timestamps.
pub open spec fn json_of_task_back(t: TaskView) -> Seq<char> {
    ",\"priority\":"@ + json_str_lit(priority_label(t.priority)) + ",\"due_date\":"@
        + json_opt_str(t.due_date) + ",\"created_at\":"@ + json_str_lit(t.created_at)
        + ",\"updated_at\":"@ + json_str_lit(t.updated_at)
}

/// The JSON object of one task. The attachments key is omitted when the
/// task has none.
pub open spec fn json_of_task(t: TaskView) -> Seq<char> {
    json_of_task_fields(t) + (match t.attachments {
        None => Seq::<char>::empty(),
        Some(aa) => ",\"attachments\":["@ + json_of_attachments(aa) + "]"@,
    }) + "}"@
}

/// The comma-joined task objects (without the surrounding brackets).
pub open spec fn json_items_of_tasks(s: Seq<TaskView>) -> Seq<char>
    decreases s.len(),
{
    if s.len() == 0 {
        Seq::<char>::empty()
    } else {
        json_items_of_tasks(s.drop_last()) + (if s.len() == 1 {
            Seq::<char>::empty()
        } else {
            seq![',']
        }) + json_of_task(s.last())
    }
}

/// The tasks document: a JSON array of task objects, insertion order kept.
pub open spec fn json_of_tasks(s: Seq<TaskView>) -> Seq<char> {
    seq!['['] + json_items_of_tasks(s) + seq![']']
}

/// The settings document. The optional fields are omitted when absent.
pub open spec fn json_of_settings(s: SettingsView) -> Seq<char> {
    "{\"theme\":"@ + json_str_lit(s.theme) + ",\"notifications\":"@ + json_bool(s.notifications)
        + ",\"autoSave\":"@ + json_bool(s.auto_save) + ",\"isPinned\":"@ + json_bool(s.is_pinned)
        + ",\"isCollapsed\":"@ + json_bool(s.is_collapsed) + (match s.username {
        None => Seq::<char>::empty(),
        Some(u) => ",\"username\":"@ + json_str_lit(u),
    }) + (match s.avatar {
        None => Seq::<char>::empty(),
        Some(a) => ",\"avatar\":"@ + json_str_lit(a),
    }) + "}"@
}

fn write_attachment(out: &mut String, a: &Attachment)
    ensures
        final(out)@ == old(out)@ + json_of_attachment(a@),
{
    out.append("{\"id\":");
    write_json_str(out, a.id.as_str());
    out.append(",\"name\":");
    write_json_str(out, a.name.as_str());
    out.append(",\"size\":");
    write_u64(out, a.size);
    out.append(",\"type\":");
    write_json_str(out, a.file_type.as_str());
    out.append(",\"data\":");
    write_json_str(out, a.data.as_str());
    out.append(",\"created_at\":");
    write_json_str(out, a.created_at.as_str());
    out.append("}");
    proof {
        assert(out@ =~= old(out)@ + json_of_attachment(a@));
    }
}

fn write_attachments(out: &mut String, v: &Vec<Attachment>)
    ensures
        final(out)@ == old(out)@ + json_of_attachments(v.deep_view()),
{
    let ghost dv = v.deep_view();
    let n = v.len();
    let mut i: usize = 0;
    while i < n
        invariant
            i <= n,
            n == dv.len(),
            dv == v.deep_view(),
            out@ == old(out)@ + json_of_attachments(dv.take(i as int)),
        decreases n - i,
    {
        if i > 0 {
            push_char(out, ',');
        }
        write_attachment(out, &v[i]);
        proof {
            assert(dv.take((i + 1) as int).drop_last() =~= dv.take(i as int));
            assert(dv.take((i + 1) as int).last() == dv[i as int]);
            assert(out@ =~= old(out)@ + json_of_attachments(dv.take((i + 1) as int)));
        }
        i = i + 1;
    }
    proof {
        assert(dv.take(n as int) =~= dv);
    }
}

#[verifier::rlimit(60)]
fn write_task_fields(out: &mut String, t: &Task)
    ensures
        final(out)@ == old(out)@ + json_of_task_fields(t@),
{
    out.append("{\"id\":");
    write_json_str(out, t.id.as_str());
    out.append(",\"title\":");
    write_json_str(out, t.title.as_str());
    out.append(",\"description\":");
    write_opt_str(out, &t.description);
    out.append(",\"completed\":");
    write_bool(out, t.completed);
    out.append(",\"priority\":");
    let p = t.priority.to_string();
    write_json_str(out, p.as_str());
    out.append(",\"due_date\":");
    write_opt_str(out, &t.due_date);
    out.append(",\"created_at\":");
    write_json_str(out, t.created_at.as_str());
    out.append(",\"updated_at\":");
    write_json_str(out, t.updated_at.as_str());
    proof {
        assert(out@ =~= old(out)@ + json_of_task_fields(t@));
    }
}

fn write_task(out: &mut String, t: &Task)
    ensures
        final(out)@ == old(out)@ + json_of_task(t@),
{
    write_task_fields(out, t);
    match &t.attachments {
        None => {},
        Some(aa) => {
            out.append(",\"attachments\":[");
            write_attachments(out, aa);
            out.append("]");
        },
    }
    out.append("}");
    proof {
        assert(out@ =~= old(out)@ + json_of_task(t@));
    }
}

/// The tasks document as text: exactly `json_of_tasks` of the collection.
pub fn tasks_to_json(tasks: &Vec<Task>) -> (r: String)
    ensures
        r@ == json_of_tasks(tasks.deep_view()),
{
    let ghost dv = tasks.deep_view();
    let mut out = String::new();
    push_char(&mut out, '[');
    let n = tasks.len();
    let mut i: usize = 0;
    while i < n
        invariant
            i <= n,
            n == dv.len(),
            dv == tasks.deep_view(),
            out@ == seq!['['] + json_items_of_tasks(dv.take(i as int)),
        decreases n - i,
    {
        if i > 0 {
            push_char(&mut out, ',');
        }
        write_task(&mut out, &tasks[i]);
        proof {
            assert(dv.take((i + 1) as int).drop_last() =~= dv.take(i as int));
            assert(dv.take((i + 1) as int).last() == dv[i as int]);
            assert(out@ =~= seq!['['] + json_items_of_tasks(dv.take((i + 1) as int)));
        }
        i = i + 1;
    }
    push_char(&mut out, ']');
    proof {
        assert(dv.take(n as int) =~= dv);
        assert(out@ =~= json_of_tasks(dv));
    }
    out
}

fn str_to_chars(s: &str) -> (r: Vec<char>)
    ensures
        r@ == s@,
{
    let n = s.unicode_len();
    let mut r: Vec<char> = Vec::new();
    let mut i: usize = 0;
    while i < n
        invariant
            i <= n,
            n == s@.len(),
            r@ =~= s@.take(i as int),
        decreases n - i,
    {
        r.push(s.get_char(i));
        proof {
            assert(r@ =~= s@.take((i + 1) as int));
        }
        i = i + 1;
    }
    proof {
        assert(r@ =~= s@);
    }
    r
}

/// Consumes exactly the characters of `lit` at position `i`, or refuses.
fn expect_lit(cs: &Vec<char>, i: usize, lit: &str) -> (r: Option<usize>)
    requires
        i <= cs@.len(),
    ensures
        (match r {
            Some(j) => i <= j <= cs@.len() && j == i + lit@.len() && cs@.subrange(
                i as int,
                j as int,
            ) == lit@,
            None => !(i + lit@.len() <= cs@.len() && cs@.subrange(
                i as int,
                i + lit@.len() as int,
            ) == lit@),
        }),
{
    let n = lit.unicode_len();
    if n > cs.len() - i {
        return None;
    }
    let mut k: usize = 0;
    while k < n
        invariant
            k <= n,
            n == lit@.len(),
            i + n <= cs@.len(),
            cs@.len() <= usize::MAX,
            cs@.subrange(i as int, (i + k) as int) =~= lit@.take(k as int),
        decreases n - k,
    {
        if cs[i + k] != lit.get_char(k) {
            proof {
                assert(cs@.subrange(i as int, i + lit@.len() as int)[k as int] == cs@[i + k]);
            }
            return None;
        }
        proof {
            assert(cs@.subrange(i as int, (i + k + 1) as int) =~= lit@.take((k + 1) as int));
        }
        k = k + 1;
    }
    proof {
        assert(cs@.subrange(i as int, (i + n) as int) =~= lit@);
    }
    Some(i + n)
}

/// The value of a decimal digit character, if it is one.
fn digit_val(c: char) -> (r: Option<u32>)
    ensures
        (match r {
            Some(d) => d < 10 && hex_digit(d as int) == c && is_digit_char(c),
            None => !is_digit_char(c),
        }),
{
    if c == '0' {
        Some(0)
    } else if c == '1' {
        Some(1)
    } else if c == '2' {
        Some(2)
    } else if c == '3' {
        Some(3)
    } else if c == '4' {
        Some(4)
    } else if c == '5' {
        Some(5)
    } else if c == '6' {
        Some(6)
    } else if c == '7' {
        Some(7)
    } else if c == '8' {
        Some(8)
    } else if c == '9' {
        Some(9)
    } else {
        None
    }
}

/// The value of a lower-case hexadecimal digit character, if it is one.
fn hex_val(c: char) -> (r: Option<u32>)
    ensures
        (match r {
            Some(d) => d < 16 && hex_digit(d as int) == c,
            None => forall|d: int| 0 <= d < 16 ==> c != hex_digit(d),
        }),
{
    match digit_val(c) {
        Some(d) => Some(d),
        None => {
            if c == 'a' {
                Some(10)
            } else if c == 'b' {
                Some(11)
            } else if c == 'c' {
                Some(12)
            } else if c == 'd' {
                Some(13)
            } else if c == 'e' {
                Some(14)
            } else if c == 'f' {
                Some(15)
            } else {
                None
            }
        },
    }
}

/// The control character with this code.
fn ctrl_char(u: u32) -> (c: char)
    requires
        u < 0x20,
    ensures
        c as u32 == u,
{
    if u == 0 {
        '\u{00}'
    } else if u == 1 {
        '\u{01}'
    } else if u == 2 {
        '\u{02}'
    } else if u == 3 {
        '\u{03}'
    } else if u == 4 {
        '\u{04}'
    } else if u == 5 {
        '\u{05}'
    } else if u == 6 {
        '\u{06}'
    } else if u == 7 {
        '\u{07}'
    } else if u == 8 {
        '\u{08}'
    } else if u == 9 {
        '\u{09}'
    } else if u == 10 {
        '\u{0a}'
    } else if u == 11 {
        '\u{0b}'
    } else if u == 12 {
        '\u{0c}'
    } else if u == 13 {
        '\u{0d}'
    } else if u == 14 {
        '\u{0e}'
    } else if u == 15 {
        '\u{0f}'
    } else if u == 16 {
        '\u{10}'
    } else if u == 17 {
        '\u{11}'
    } else if u == 18 {
        '\u{12}'
    } else if u == 19 {
        '\u{13}'
    } else if u == 20 {
        '\u{14}'
    } else if u == 21 {
        '\u{15}'
    } else if u == 22 {
        '\u{16}'
    } else if u == 23 {
        '\u{17}'
    } else if u == 24 {
        '\u{18}'
    } else if u == 25 {
        '\u{19}'
    } else if u == 26 {
        '\u{1a}'
    } else if u == 27 {
        '\u{1b}'
    } else if u == 28 {
        '\u{1c}'
    } else if u == 29 {
        '\u{1d}'
    } else if u == 30 {
        '\u{1e}'
    } else {
        '\u{1f}'
    }
}

/// Parses a JSON string literal at `i`; accepts exactly the canonical
/// escaping that the writer emits. The ghost witness, when present, says
/// the text at `i` begins with the rendering of `v`; the parser is then
/// guaranteed to accept it, return exactly `v`, and stop exactly at `rest`.
#[verifier::rlimit(100)]
#[verifier::spinoff_prover]
fn parse_json_string(cs: &Vec<char>, i: usize, Ghost(w): Ghost<Option<(Seq<char>, Seq<char>)>>) -> (r:
    Option<(String, usize)>)
    requires
        i <= cs@.len(),
        (match w {
            Some((v, rest)) => cs@.subrange(i as int, cs@.len() as int) == json_str_lit(v) + rest,
            None => true,
        }),
    ensures
        (match r {
            Some((v, j)) => i < j <= cs@.len() && cs@.subrange(i as int, j as int) == json_str_lit(
                v@,
            ),
            None => true,
        }),
        (match w {
            Some((v, rest)) => match r {
                Some((out, j)) => out@ == v && j == i + json_str_lit(v).len() && cs@.subrange(
                    j as int,
                    cs@.len() as int,
                ) == rest,
                None => false,
            },
            None => true,
        }),
{
    let n = cs.len();
    proof {
        match w {
            Some((v, rest)) => {
                lemma_assoc(seq!['"'] + esc_str(v), seq!['"'], rest);
                lemma_assoc(seq!['"'], esc_str(v), seq!['"'] + rest);
                lemma_starts_with(cs@, i as int, seq!['"'], esc_str(v) + (seq!['"'] + rest));
                lemma_index_at(cs@, i as int, seq!['"'], 0);
            },
            None => {},
        }
    }
    if i >= n {
        proof {
            match w {
                Some((v, rest)) => {
                    assert(false);
                },
                None => {},
            }
        }
        return None;
    }
    if cs[i] != '"' {
        proof {
            match w {
                Some((v, rest)) => {
                    assert(cs@[i as int] == '"');
                    assert(false);
                },
                None => {},
            }
        }
        return None;
    }
    let mut out = String::new();
    let mut k = i + 1;
    let ghost mut v2: Seq<char> = match w {
        Some((v, rest)) => v,
        None => Seq::<char>::empty(),
    };
    proof {
        assert(esc_str(out@) =~= cs@.subrange((i + 1) as int, k as int));
        match w {
            Some((v, rest)) => {
                assert(out@ + v2 =~= v);
            },
            None => {},
        }
    }
    while k < n
        invariant
            i + 1 <= k <= n,
            n == cs@.len(),
            cs@[i as int] == '"',
            esc_str(out@) =~= cs@.subrange((i + 1) as int, k as int),
            (match w {
                Some((v, rest)) => out@ + v2 == v && cs@.subrange(k as int, n as int) == esc_str(
                    v2,
                ) + (seq!['"'] + rest),
                None => true,
            }),
        decreases n - k,
    {
        proof {
            match w {
                Some((v, rest)) => {
                    if v2.len() > 0 {
                        lemma_esc_str_first(v2);
                        lemma_esc_char_shape(v2[0]);
                        lemma_assoc(
                            esc_char(v2[0]),
                            esc_str(v2.subrange(1, v2.len() as int)),
                            seq!['"'] + rest,
                        );
                        lemma_starts_with(
                            cs@,
                            k as int,
                            esc_char(v2[0]),
                            esc_str(v2.subrange(1, v2.len() as int)) + (seq!['"'] + rest),
                        );
                        lemma_index_at(cs@, k as int, esc_char(v2[0]), 0);
                        assert(cs@[k as int] == esc_char(v2[0])[0]);
                        if esc_char(v2[0]).len() >= 2 {
                            lemma_index_at(cs@, k as int, esc_char(v2[0]), 1);
                        }
                        if esc_char(v2[0]).len() == 6 {
                            lemma_index_at(cs@, k as int, esc_char(v2[0]), 2);
                            lemma_index_at(cs@, k as int, esc_char(v2[0]), 3);
                            lemma_index_at(cs@, k as int, esc_char(v2[0]), 4);
                            lemma_index_at(cs@, k as int, esc_char(v2[0]), 5);
                        }
                    } else {
                        assert(esc_str(v2) == Seq::<char>::empty());
                        assert(cs@.subrange(k as int, n as int) =~= seq!['"'] + rest);
                        lemma_starts_with(cs@, k as int, seq!['"'], rest);
                        lemma_index_at(cs@, k as int, seq!['"'], 0);
                        assert(cs@[k as int] == '"');
                    }
                },
                None => {},
            }
        }
        let c = cs[k];
        if c == '"' {
            proof {
                assert(cs@.subrange(i as int, (k + 1) as int) =~= seq!['"'] + esc_str(out@)
                    + seq!['"']);
                match w {
                    Some((v, rest)) => {
                        if v2.len() > 0 {
                            assert(false);
                        }
                        assert(out@ =~= v);
                        lemma_starts_with(cs@, k as int, seq!['"'], rest);
                        assert(cs@.subrange((k + 1) as int, n as int) == rest);
                        assert(json_str_lit(v).len() == esc_str(v).len() + 2);
                        assert(esc_str(out@).len() == k - i - 1);
                    },
                    None => {},
                }
            }
            return Some((out, k + 1));
        } else if c == '\\' {
            if n - k < 2 {
                proof {
                    match w {
                        Some((v, rest)) => {
                            assert(v2.len() > 0);
                            assert(esc_char(v2[0]).len() >= 2);
                            assert(false);
                        },
                        None => {},
                    }
                }
                return None;
            }
            let e = cs[k + 1];
            proof {
                match w {
                    Some((v, rest)) => {
                        assert(v2.len() > 0);
                        assert(esc_char(v2[0])[0] == '\\');
                        assert(v2[0] == '"' || v2[0] == '\\' || (v2[0] as u32) < 0x20);
                        assert(esc_char(v2[0]).len() >= 2);
                        assert(cs@[(k + 1) as int] == esc_char(v2[0])[1]);
                    },
                    None => {},
                }
            }
            if e == '"' || e == '\\' {
                let ghost prev = out@;
                push_char(&mut out, e);
                proof {
                    assert(out@.drop_last() =~= prev);
                    assert(esc_char(e) =~= seq!['\\', e]);
                    assert(esc_str(out@) =~= cs@.subrange((i + 1) as int, (k + 2) as int));
                    match w {
                        Some((v, rest)) => {
                            assert(v2[0] == e);
                            assert(esc_char(v2[0]) =~= seq!['\\', e]);
                            let ghost v2next = v2.subrange(1, v2.len() as int);
                            assert(out@ + v2next =~= v);
                            v2 = v2next;
                        },
                        None => {},
                    }
                }
                k = k + 2;
            } else if e == 'u' {
                proof {
                    match w {
                        Some((v, rest)) => {
                            assert(v2[0] != '"' && v2[0] != '\\');
                            assert((v2[0] as u32) < 0x20);
                            assert(esc_char(v2[0]).len() == 6);
                        },
                        None => {},
                    }
                }
                if n - k < 6 {
                    proof {
                        match w {
                            Some((v, rest)) => {
                                assert(false);
                            },
                            None => {},
                        }
                    }
                    return None;
                }
                if cs[k + 2] != '0' || cs[k + 3] != '0' {
                    proof {
                        match w {
                            Some((v, rest)) => {
                                assert(cs@[(k + 2) as int] == esc_char(v2[0])[2]);
                                assert(cs@[(k + 3) as int] == esc_char(v2[0])[3]);
                                assert(false);
                            },
                            None => {},
                        }
                    }
                    return None;
                }
                proof {
                    match w {
                        Some((v, rest)) => {
                            assert(cs@[(k + 4) as int] == esc_char(v2[0])[4]);
                            assert(cs@[(k + 5) as int] == esc_char(v2[0])[5]);
                        },
                        None => {},
                    }
                }
                let h1 = match hex_val(cs[k + 4]) {
                    Some(d) => d,
                    None => {
                        proof {
                            match w {
                                Some((v, rest)) => {
                                    let c0 = (v2[0] as u32) as int;
                                    assert(0 <= c0 / 16 < 16);
                                    assert(cs@[(k + 4) as int] == hex_digit(c0 / 16));
                                    assert(false);
                                },
                                None => {},
                            }
                        }
                        return None;
                    },
                };
                let h2 = match hex_val(cs[k + 5]) {
                    Some(d) => d,
                    None => {
                        proof {
                            match w {
                                Some((v, rest)) => {
                                    let c0 = (v2[0] as u32) as int;
                                    assert(0 <= c0 % 16 < 16);
                                    assert(cs@[(k + 5) as int] == hex_digit(c0 % 16));
                                    assert(false);
                                },
                                None => {},
                            }
                        }
                        return None;
                    },
                };
                let u = h1 * 16 + h2;
                proof {
                    match w {
                        Some((v, rest)) => {
                            let c0 = (v2[0] as u32) as int;
                            assert(c0 == 16 * (c0 / 16) + c0 % 16);
                            lemma_hex_digit_injective(h1 as int, c0 / 16);
                            lemma_hex_digit_injective(h2 as int, c0 % 16);
                            assert(u == v2[0] as u32);
                        },
                        None => {},
                    }
                }
                if u >= 0x20 {
                    proof {
                        match w {
                            Some((v, rest)) => {
                                assert(false);
                            },
                            None => {},
                        }
                    }
                    return None;
                }
                let c2 = ctrl_char(u);
                let ghost prev = out@;
                push_char(&mut out, c2);
                proof {
                    assert(u as int / 16 == h1 as int && u as int % 16 == h2 as int)
                        by (nonlinear_arith)
                        requires
                            0 <= h2 < 16,
                            0 <= h1,
                            u == h1 * 16 + h2,
                    ;
                    assert(c2 != '"' && c2 != '\\');
                    assert(esc_char(c2) =~= seq![
                        '\\',
                        'u',
                        '0',
                        '0',
                        hex_digit(u as int / 16),
                        hex_digit(u as int % 16),
                    ]);
                    assert(out@.drop_last() =~= prev);
                    assert(esc_str(out@) =~= cs@.subrange((i + 1) as int, (k + 6) as int));
                    match w {
                        Some((v, rest)) => {
                            vstd::utf8::char_u32_cast(v2[0], v2[0] as u32);
                            vstd::utf8::char_u32_cast(c2, c2 as u32);
                            assert(c2 == v2[0]);
                            let ghost v2next = v2.subrange(1, v2.len() as int);
                            assert(out@ + v2next =~= v);
                            v2 = v2next;
                        },
                        None => {},
                    }
                }
                k = k + 6;
            } else {
                proof {
                    match w {
                        Some((v, rest)) => {
                            if v2[0] == '"' || v2[0] == '\\' {
                                assert(esc_char(v2[0])[1] == v2[0]);
                            } else {
                                assert(esc_char(v2[0])[1] == 'u');
                            }
                            assert(false);
                        },
                        None => {},
                    }
                }
                return None;
            }
        } else if (c as u32) < 0x20 {
            proof {
                match w {
                    Some((v, rest)) => {
                        assert(v2.len() > 0);
                        if v2[0] == '"' || v2[0] == '\\' || (v2[0] as u32) < 0x20 {
                            assert(esc_char(v2[0])[0] == '\\');
                        } else {
                            assert(esc_char(v2[0]) =~= seq![v2[0]]);
                            assert(c == v2[0]);
                        }
                        assert(false);
                    },
                    None => {},
                }
            }
            return None;
        } else {
            let ghost prev = out@;
            push_char(&mut out, c);
            proof {
                assert(out@.drop_last() =~= prev);
                assert(esc_char(c) =~= seq![c]);
                assert(esc_str(out@) =~= cs@.subrange((i + 1) as int, (k + 1) as int));
                match w {
                    Some((v, rest)) => {
                        assert(v2.len() > 0);
                        if v2[0] == '"' || v2[0] == '\\' || (v2[0] as u32) < 0x20 {
                            assert(esc_char(v2[0])[0] == '\\');
                            assert(false);
                        }
                        assert(esc_char(v2[0]) =~= seq![v2[0]]);
                        assert(c == v2[0]);
                        let ghost v2next = v2.subrange(1, v2.len() as int);
                        assert(out@ + v2next =~= v);
                        v2 = v2next;
                    },
                    None => {},
                }
            }
            k = k + 1;
        }
    }
    proof {
        match w {
            Some((v, rest)) => {
                assert(cs@.subrange(n as int, n as int).len() == 0);
                assert(false);
            },
            None => {},
        }
    }
    None
}

/// Parses `true` or `false` at `i`.
fn parse_bool(cs: &Vec<char>, i: usize, Ghost(w): Ghost<Option<(bool, Seq<char>)>>) -> (r: Option<
    (bool, usize),
>)
    requires
        i <= cs@.len(),
        (match w {
            Some((x, rest)) => cs@.subrange(i as int, cs@.len() as int) == json_bool(x) + rest,
            None => true,
        }),
    ensures
        (match r {
            Some((b, j)) => i <= j <= cs@.len() && cs@.subrange(i as int, j as int) == json_bool(b),
            None => true,
        }),
        (match w {
            Some((x, rest)) => match r {
                Some((b, j)) => b == x && j == i + json_bool(x).len() && cs@.subrange(
                    j as int,
                    cs@.len() as int,
                ) == rest,
                None => false,
            },
            None => true,
        }),
{
    proof {
        reveal_strlit("true");
        reveal_strlit("false");
        match w {
            Some((x, rest)) => {
                lemma_starts_with(cs@, i as int, json_bool(x), rest);
                lemma_index_at(cs@, i as int, json_bool(x), 0);
            },
            None => {},
        }
    }
    match expect_lit(cs, i, "true") {
        Some(j) => {
            proof {
                match w {
                    Some((x, rest)) => {
                        if !x {
                            lemma_index_at(cs@, i as int, "true"@, 0);
                            assert(false);
                        }
                    },
                    None => {},
                }
            }
            Some((true, j))
        },
        None => match expect_lit(cs, i, "false") {
            Some(j) => {
                proof {
                    match w {
                        Some((x, rest)) => {
                            if x {
                                assert(false);
                            }
                        },
                        None => {},
                    }
                }
                Some((false, j))
            },
            None => {
                proof {
                    match w {
                        Some((x, rest)) => {
                            assert(false);
                        },
                        None => {},
                    }
                }
                None
            },
        },
    }
}

/// Parses `null` or a string literal at `i`.
fn parse_opt_str(
    cs: &Vec<char>,
    i: usize,
    Ghost(w): Ghost<Option<(Option<Seq<char>>, Seq<char>)>>,
) -> (r: Option<(Option<String>, usize)>)
    requires
        i <= cs@.len(),
        (match w {
            Some((o, rest)) => cs@.subrange(i as int, cs@.len() as int) == json_opt_str(o) + rest,
            None => true,
        }),
    ensures
        (match r {
            Some((o, j)) => i <= j <= cs@.len() && cs@.subrange(i as int, j as int) == json_opt_str(
                match o {
                    Some(v) => Some(v@),
                    None => None,
                },
            ),
            None => true,
        }),
        (match w {
            Some((o, rest)) => match r {
                Some((out, j)) => (match o {
                    None => out is None,
                    Some(v) => out matches Some(s) && s@ == v,
                }) && j == i + json_opt_str(o).len() && cs@.subrange(j as int, cs@.len() as int)
                    == rest,
                None => false,
            },
            None => true,
        }),
{
    proof {
        reveal_strlit("null");
        match w {
            Some((o, rest)) => {
                lemma_starts_with(cs@, i as int, json_opt_str(o), rest);
                lemma_index_at(cs@, i as int, json_opt_str(o), 0);
                match o {
                    Some(v) => {
                        assert(json_str_lit(v) =~= seq!['"'] + (esc_str(v) + seq!['"']));
                        assert(json_opt_str(o)[0] == '"');
                    },
                    None => {},
                }
            },
            None => {},
        }
    }
    match expect_lit(cs, i, "null") {
        Some(j) => {
            proof {
                match w {
                    Some((o, rest)) => {
                        match o {
                            Some(v) => {
                                lemma_index_at(cs@, i as int, "null"@, 0);
                                assert(false);
                            },
                            None => {},
                        }
                    },
                    None => {},
                }
            }
            Some((None, j))
        },
        None => {
            let ghost inner: Option<(Seq<char>, Seq<char>)> = match w {
                Some((o, rest)) => match o {
                    Some(v) => Some((v, rest)),
                    None => None,
                },
                None => None,
            };
            proof {
                match w {
                    Some((o, rest)) => {
                        match o {
                            None => {
                                assert(false);
                            },
                            Some(v) => {},
                        }
                    },
                    None => {},
                }
            }
            match parse_json_string(cs, i, Ghost(inner)) {
                Some((v, j)) => Some((Some(v), j)),
                None => {
                    proof {
                        match w {
                            Some((o, rest)) => {
                                assert(false);
                            },
                            None => {},
                        }
                    }
                    None
                },
            }
        },
    }
}

/// Parses a canonical decimal number at `i`: digits only, no leading zero.
#[verifier::rlimit(100)]
#[verifier::spinoff_prover]
fn parse_u64(cs: &Vec<char>, i: usize, Ghost(w): Ghost<Option<(u64, Seq<char>)>>) -> (r: Option<
    (u64, usize),
>)
    requires
        i <= cs@.len(),
        (match w {
            Some((m, rest)) => cs@.subrange(i as int, cs@.len() as int) == dec_digits(m as nat)
                + rest && (rest.len() == 0 || !is_digit_char(rest[0])),
            None => true,
        }),
    ensures
        (match r {
            Some((v, j)) => i < j <= cs@.len() && cs@.subrange(i as int, j as int) == dec_digits(
                v as nat,
            ),
            None => true,
        }),
        (match w {
            Some((m, rest)) => match r {
                Some((v, j)) => v == m && j == i + dec_digits(m as nat).len() && cs@.subrange(
                    j as int,
                    cs@.len() as int,
                ) == rest,
                None => false,
            },
            None => true,
        }),
{
    let n = cs.len();
    proof {
        match w {
            Some((m, rest)) => {
                lemma_dec_digits_are_digits(m as nat);
                lemma_starts_with(cs@, i as int, dec_digits(m as nat), rest);
                lemma_index_at(cs@, i as int, dec_digits(m as nat), 0);
            },
            None => {},
        }
    }
    if i >= n {
        proof {
            match w {
                Some((m, rest)) => {
                    assert(false);
                },
                None => {},
            }
        }
        return None;
    }
    let d0 = match digit_val(cs[i]) {
        Some(d) => d,
        None => {
            proof {
                match w {
                    Some((m, rest)) => {
                        assert(is_digit_char(cs@[i as int]));
                        assert(false);
                    },
                    None => {},
                }
            }
            return None;
        },
    };
    if d0 == 0 {
        proof {
            assert(cs@.subrange(i as int, (i + 1) as int) =~= dec_digits(0));
            match w {
                Some((m, rest)) => {
                    if m >= 1 {
                        lemma_dec_leading_nonzero(m as nat);
                        assert(false);
                    }
                    assert(dec_digits(m as nat).len() == 1);
                },
                None => {},
            }
        }
        return Some((0, i + 1));
    }
    let mut v: u64 = d0 as u64;
    let mut k = i + 1;
    proof {
        assert(cs@.subrange(i as int, (i + 1) as int) =~= dec_digits(v as nat));
        match w {
            Some((m, rest)) => {
                if m == 0 {
                    lemma_hex_digit_injective(d0 as int, 0);
                    assert(false);
                }
                assert(dec_digits(v as nat) =~= dec_digits(m as nat).take((k - i) as int));
            },
            None => {},
        }
    }
    while k < n
        invariant_except_break
            i < k <= n,
            n == cs@.len(),
            1 <= v,
            cs@.subrange(i as int, k as int) == dec_digits(v as nat),
            (match w {
                Some((m, rest)) => {
                    &&& cs@.subrange(i as int, cs@.len() as int) == dec_digits(m as nat) + rest
                    &&& (rest.len() == 0 || !is_digit_char(rest[0]))
                    &&& k <= i + dec_digits(m as nat).len()
                    &&& dec_digits(v as nat) == dec_digits(m as nat).take((k - i) as int)
                },
                None => true,
            }),
        ensures
            i < k <= n,
            n == cs@.len(),
            cs@.subrange(i as int, k as int) == dec_digits(v as nat),
            (match w {
                Some((m, rest)) => k == i + dec_digits(m as nat).len(),
                None => true,
            }),
        decreases n - k,
    {
        proof {
            match w {
                Some((m, rest)) => {
                    lemma_dec_digits_are_digits(m as nat);
                    lemma_starts_with(cs@, i as int, dec_digits(m as nat), rest);
                    if k < i + dec_digits(m as nat).len() {
                        lemma_index_at(cs@, i as int, dec_digits(m as nat), (k - i) as int);
                        assert(is_digit_char(cs@[k as int]));
                    } else {
                        assert(rest.len() > 0);
                        lemma_index_at(
                            cs@,
                            i + dec_digits(m as nat).len() as int,
                            rest,
                            0,
                        );
                        assert(cs@[k as int] == rest[0]);
                    }
                },
                None => {},
            }
        }
        match digit_val(cs[k]) {
            None => {
                proof {
                    match w {
                        Some((m, rest)) => {
                            assert(k == i + dec_digits(m as nat).len());
                        },
                        None => {},
                    }
                }
                break ;
            },
            Some(d) => {
                proof {
                    match w {
                        Some((m, rest)) => {
                            assert(k < i + dec_digits(m as nat).len());
                            lemma_index_at(cs@, i as int, dec_digits(m as nat), (k - i) as int);
                            let wn: int = v * 10 + d;
                            assert(wn >= 10);
                            assert(wn as nat / 10 == v as nat && wn as nat % 10 == d as nat)
                                by (nonlinear_arith)
                                requires
                                    0 <= d < 10,
                                    1 <= v,
                                    wn == v * 10 + d,
                            ;
                            assert(dec_digits(wn as nat) == dec_digits(v as nat).push(
                                hex_digit(d as int),
                            ));
                            assert(hex_digit(d as int) == dec_digits(m as nat)[(k - i) as int]);
                            assert(dec_digits(wn as nat) =~= dec_digits(m as nat).take(
                                (k - i + 1) as int,
                            ));
                            lemma_dec_prefix_le(wn as nat, m as nat, k - i + 1);
                            assert(wn <= u64::MAX);
                        },
                        None => {},
                    }
                }
                if v > (u64::MAX - d as u64) / 10 {
                    proof {
                        match w {
                            Some((m, rest)) => {
                                assert(v * 10 + d > u64::MAX) by (nonlinear_arith)
                                    requires
                                        0 <= d < 10,
                                        v > (u64::MAX - d) / 10,
                                ;
                                assert(false);
                            },
                            None => {},
                        }
                    }
                    return None;
                }
                proof {
                    assert(v * 10 + d <= u64::MAX) by (nonlinear_arith)
                        requires
                            0 <= d < 10,
                            0 <= v <= (u64::MAX - d) / 10,
                    ;
                }
                let ghost oldv = v as nat;
                v = v * 10 + d as u64;
                proof {
                    assert(v as nat / 10 == oldv && v as nat % 10 == d as nat)
                        by (nonlinear_arith)
                        requires
                            0 <= d < 10,
                            1 <= oldv,
                            v == oldv * 10 + d,
                    ;
                    assert(dec_digits(v as nat) == dec_digits(oldv).push(hex_digit(d as int)));
                    assert(cs@.subrange(i as int, (k + 1) as int) =~= dec_digits(v as nat));
                    match w {
                        Some((m, rest)) => {
                            assert(dec_digits(v as nat) =~= dec_digits(m as nat).take(
                                (k + 1 - i) as int,
                            ));
                        },
                        None => {},
                    }
                }
                k = k + 1;
            },
        }
    }
    proof {
        match w {
            Some((m, rest)) => {
                lemma_starts_with(cs@, i as int, dec_digits(m as nat), rest);
                assert(cs@.subrange(i as int, k as int) == dec_digits(m as nat));
                lemma_dec_digits_injective(v as nat, m as nat);
            },
            None => {},
        }
    }
    Some((v, k))
}

/// Parses one attachment object at `i`. With a witness, acceptance and the
/// exact value are guaranteed.
#[verifier::rlimit(100)]
#[verifier::spinoff_prover]
fn parse_attachment(
    cs: &Vec<char>,
    i: usize,
    Ghost(w): Ghost<Option<(AttachmentView, Seq<char>)>>,
) -> (r: Option<(Attachment, usize)>)
    requires
        i <= cs@.len(),
        (match w {
            Some((aw, rest)) => cs@.subrange(i as int, cs@.len() as int) == json_of_attachment(aw)
                + rest,
            None => true,
        }),
    ensures
        (match r {
            Some((a, j)) => i < j <= cs@.len() && cs@.subrange(i as int, j as int)
                == json_of_attachment(a@),
            None => true,
        }),
        (match w {
            Some((aw, rest)) => match r {
                Some((a, j)) => a@ == aw && j == i + json_of_attachment(aw).len()
                    && cs@.subrange(j as int, cs@.len() as int) == rest,
                None => false,
            },
            None => true,
        }),
{
    let n = cs.len();
    let ghost wx: Option<(AttachmentView, Seq<char>)> = w;
    proof {
        match wx {
            Some((aw, rest)) => {
                crate::roundtrip::lemma_chain14(
                    "{\"id\":"@,
                    json_str_lit(aw.id),
                    ",\"name\":"@,
                    json_str_lit(aw.name),
                    ",\"size\":"@,
                    dec_digits(aw.size as nat),
                    ",\"type\":"@,
                    json_str_lit(aw.file_type),
                    ",\"data\":"@,
                    json_str_lit(aw.data),
                    ",\"created_at\":"@,
                    json_str_lit(aw.created_at),
                    "}"@,
                    rest,
                );
                lemma_starts_with(
                    cs@,
                    i as int,
                    "{\"id\":"@,
                    json_str_lit(aw.id) + (",\"name\":"@ + (json_str_lit(aw.name) + (",\"size\":"@
                        + (dec_digits(aw.size as nat) + (",\"type\":"@ + (json_str_lit(
                        aw.file_type,
                    ) + (",\"data\":"@ + (json_str_lit(aw.data) + (",\"created_at\":"@ + (
                    json_str_lit(aw.created_at) + ("}"@ + rest))))))))))),
                );
            },
            None => {},
        }
    }
    let j0 = match expect_lit(cs, i, "{\"id\":") {
        Some(j) => j,
        None => {
            proof {
                match wx {
                    Some((aw, rest)) => {
                        assert(false);
                    },
                    None => {},
                }
            }
            return None;
        },
    };
    let ghost w_id: Option<(Seq<char>, Seq<char>)> = match wx {
        Some((aw, rest)) => Some(
            (
                aw.id,
                ",\"name\":"@ + (json_str_lit(aw.name) + (",\"size\":"@ + (dec_digits(
                    aw.size as nat,
                ) + (",\"type\":"@ + (json_str_lit(aw.file_type) + (",\"data\":"@ + (
                json_str_lit(aw.data) + (",\"created_at\":"@ + (json_str_lit(aw.created_at) + (
                "}"@ + rest)))))))))),
            ),
        ),
        None => None,
    };
    proof {
        match wx {
            Some((aw, rest)) => {
                lemma_assoc(json_str_lit(aw.id), ",\"name\":"@, w_id.unwrap().1.subrange(9, w_id.unwrap().1.len() as int));
            },
            None => {},
        }
    }
    let (id, j1) = match parse_json_string(cs, j0, Ghost(w_id)) {
        Some(p) => p,
        None => {
            proof {
                match wx {
                    Some((aw, rest)) => {
                        assert(false);
                    },
                    None => {},
                }
            }
            return None;
        },
    };
    proof {
        reveal_strlit(",\"notifications\":");
        reveal_strlit(",\"autoSave\":");
        assert(cs@.subrange(i as int, j1 as int) =~= cs@.subrange(i as int, j0 as int)
            + cs@.subrange(j0 as int, j1 as int));
        match wx {
            Some((aw, rest)) => {
                lemma_starts_with(
                    cs@,
                    j1 as int,
                    ",\"name\":"@,
                    json_str_lit(aw.name) + (",\"size\":"@ + (dec_digits(aw.size as nat) + (
                    ",\"type\":"@ + (json_str_lit(aw.file_type) + (",\"data\":"@ + (
                    json_str_lit(aw.data) + (",\"created_at\":"@ + (json_str_lit(aw.created_at)
                        + ("}"@ + rest))))))))),
                );
            },
            None => {},
        }
    }
    let j2 = match expect_lit(cs, j1, ",\"name\":") {
        Some(j) => j,
        None => {
            proof {
                match wx {
                    Some((aw, rest)) => {
                        assert(false);
                    },
                    None => {},
                }
            }
            return None;
        },
    };
    let ghost w_name: Option<(Seq<char>, Seq<char>)> = match wx {
        Some((aw, rest)) => Some(
            (
                aw.name,
                ",\"size\":"@ + (dec_digits(aw.size as nat) + (",\"type\":"@ + (json_str_lit(
                    aw.file_type,
                ) + (",\"data\":"@ + (json_str_lit(aw.data) + (",\"created_at\":"@ + (
                json_str_lit(aw.created_at) + ("}"@ + rest)))))))),
            ),
        ),
        None => None,
    };
    let (name, j3) = match parse_json_string(cs, j2, Ghost(w_name)) {
        Some(p) => p,
        None => {
            proof {
                match wx {
                    Some((aw, rest)) => {
                        assert(false);
                    },
                    None => {},
                }
            }
            return None;
        },
    };
    proof {
        assert(cs@.subrange(i as int, j2 as int) =~= cs@.subrange(i as int, j1 as int)
            + cs@.subrange(j1 as int, j2 as int));
        assert(cs@.subrange(i as int, j3 as int) =~= cs@.subrange(i as int, j2 as int)
            + cs@.subrange(j2 as int, j3 as int));
        match wx {
            Some((aw, rest)) => {
                lemma_starts_with(
                    cs@,
                    j3 as int,
                    ",\"size\":"@,
                    dec_digits(aw.size as nat) + (",\"type\":"@ + (json_str_lit(aw.file_type) + (
                    ",\"data\":"@ + (json_str_lit(aw.data) + (",\"created_at\":"@ + (
                    json_str_lit(aw.created_at) + ("}"@ + rest))))))),
                );
            },
            None => {},
        }
    }
    let j4 = match expect_lit(cs, j3, ",\"size\":") {
        Some(j) => j,
        None => {
            proof {
                match wx {
                    Some((aw, rest)) => {
                        assert(false);
                    },
                    None => {},
                }
            }
            return None;
        },
    };
    let ghost w_size: Option<(u64, Seq<char>)> = match wx {
        Some((aw, rest)) => Some(
            (
                aw.size,
                ",\"type\":"@ + (json_str_lit(aw.file_type) + (",\"data\":"@ + (json_str_lit(
                    aw.data,
                ) + (",\"created_at\":"@ + (json_str_lit(aw.created_at) + ("}"@ + rest)))))),
            ),
        ),
        None => None,
    };
    proof {
        match wx {
            Some((aw, rest)) => {
                reveal_strlit(",\"type\":");
                assert(",\"type\":"@.len() == 8);
                assert(w_size.unwrap().1[0] == ",\"type\":"@[0]);
                assert(!is_digit_char(w_size.unwrap().1[0]));
            },
            None => {},
        }
    }
    let (size, j5) = match parse_u64(cs, j4, Ghost(w_size)) {
        Some(p) => p,
        None => {
            proof {
                match wx {
                    Some((aw, rest)) => {
                        assert(false);
                    },
                    None => {},
                }
            }
            return None;
        },
    };
    proof {
        assert(cs@.subrange(i as int, j4 as int) =~= cs@.subrange(i as int, j3 as int)
            + cs@.subrange(j3 as int, j4 as int));
        assert(cs@.subrange(i as int, j5 as int) =~= cs@.subrange(i as int, j4 as int)
            + cs@.subrange(j4 as int, j5 as int));
        match wx {
            Some((aw, rest)) => {
                lemma_starts_with(
                    cs@,
                    j5 as int,
                    ",\"type\":"@,
                    json_str_lit(aw.file_type) + (",\"data\":"@ + (json_str_lit(aw.data) + (
                    ",\"created_at\":"@ + (json_str_lit(aw.created_at) + ("}"@ + rest))))),
                );
            },
            None => {},
        }
    }
    let j6 = match expect_lit(cs, j5, ",\"type\":") {
        Some(j) => j,
        None => {
            proof {
                match wx {
                    Some((aw, rest)) => {
                        assert(false);
                    },
                    None => {},
                }
            }
            return None;
        },
    };
    let ghost w_type: Option<(Seq<char>, Seq<char>)> = match wx {
        Some((aw, rest)) => Some(
            (
                aw.file_type,
                ",\"data\":"@ + (json_str_lit(aw.data) + (",\"created_at\":"@ + (json_str_lit(
                    aw.created_at,
                ) + ("}"@ + rest)))),
            ),
        ),
        None => None,
    };
    let (file_type, j7) = match parse_json_string(cs, j6, Ghost(w_type)) {
        Some(p) => p,
        None => {
            proof {
                match wx {
                    Some((aw, rest)) => {
                        assert(false);
                    },
                    None => {},
                }
            }
            return None;
        },
    };
    proof {
        assert(cs@.subrange(i as int, j6 as int) =~= cs@.subrange(i as int, j5 as int)
            + cs@.subrange(j5 as int, j6 as int));
        assert(cs@.subrange(i as int, j7 as int) =~= cs@.subrange(i as int, j6 as int)
            + cs@.subrange(j6 as int, j7 as int));
        match wx {
            Some((aw, rest)) => {
                lemma_starts_with(
                    cs@,
                    j7 as int,
                    ",\"data\":"@,
                    json_str_lit(aw.data) + (",\"created_at\":"@ + (json_str_lit(aw.created_at)
                        + ("}"@ + rest))),
                );
            },
            None => {},
        }
    }
    let j8 = match expect_lit(cs, j7, ",\"data\":") {
        Some(j) => j,
        None => {
            proof {
                match wx {
                    Some((aw, rest)) => {
                        assert(false);
                    },
                    None => {},
                }
            }
            return None;
        },
    };
    let ghost w_data: Option<(Seq<char>, Seq<char>)> = match wx {
        Some((aw, rest)) => Some(
            (aw.data, ",\"created_at\":"@ + (json_str_lit(aw.created_at) + ("}"@ + rest))),
        ),
        None => None,
    };
    let (data, j9) = match parse_json_string(cs, j8, Ghost(w_data)) {
        Some(p) => p,
        None => {
            proof {
                match wx {
                    Some((aw, rest)) => {
                        assert(false);
                    },
                    None => {},
                }
            }
            return None;
        },
    };
    proof {
        assert(cs@.subrange(i as int, j8 as int) =~= cs@.subrange(i as int, j7 as int)
            + cs@.subrange(j7 as int, j8 as int));
        assert(cs@.subrange(i as int, j9 as int) =~= cs@.subrange(i as int, j8 as int)
            + cs@.subrange(j8 as int, j9 as int));
        match wx {
            Some((aw, rest)) => {
                lemma_starts_with(
                    cs@,
                    j9 as int,
                    ",\"created_at\":"@,
                    json_str_lit(aw.created_at) + ("}"@ + rest),
                );
            },
            None => {},
        }
    }
    let j10 = match expect_lit(cs, j9, ",\"created_at\":") {
        Some(j) => j,
        None => {
            proof {
                match wx {
                    Some((aw, rest)) => {
                        assert(false);
                    },
                    None => {},
                }
            }
            return None;
        },
    };
    let ghost w_created: Option<(Seq<char>, Seq<char>)> = match wx {
        Some((aw, rest)) => Some((aw.created_at, "}"@ + rest)),
        None => None,
    };
    let (created_at, j11) = match parse_json_string(cs, j10, Ghost(w_created)) {
        Some(p) => p,
        None => {
            proof {
                match wx {
                    Some((aw, rest)) => {
                        assert(false);
                    },
                    None => {},
                }
            }
            return None;
        },
    };
    proof {
        match wx {
            Some((aw, rest)) => {
                lemma_starts_with(cs@, j11 as int, "}"@, rest);
            },
            None => {},
        }
    }
    let j12 = match expect_lit(cs, j11, "}") {
        Some(j) => j,
        None => {
            proof {
                match wx {
                    Some((aw, rest)) => {
                        assert(false);
                    },
                    None => {},
                }
            }
            return None;
        },
    };
    let a = Attachment { id, name, size, file_type, data, created_at };
    proof {
        assert(cs@.subrange(i as int, j10 as int) =~= cs@.subrange(i as int, j9 as int)
            + cs@.subrange(j9 as int, j10 as int));
        assert(cs@.subrange(i as int, j11 as int) =~= cs@.subrange(i as int, j10 as int)
            + cs@.subrange(j10 as int, j11 as int));
        assert(cs@.subrange(i as int, j12 as int) =~= cs@.subrange(i as int, j11 as int)
            + cs@.subrange(j11 as int, j12 as int));
        assert(cs@.subrange(i as int, j12 as int) == json_of_attachment(a@));
        match wx {
            Some((aw, rest)) => {
                assert(a@ == aw);
                assert(cs@.subrange(j12 as int, n as int) == rest);
                assert(j12 - i == json_of_attachment(aw).len());
            },
            None => {},
        }
    }
    Some((a, j12))
}

/// Parses the comma-joined attachment objects at `i` (no brackets); an
/// immediate non-object parses as the empty list. The witness's remainder
/// must begin with the closing bracket, which delimits the list.
#[verifier::rlimit(100)]
#[verifier::spinoff_prover]
fn parse_attachment_items(
    cs: &Vec<char>,
    i: usize,
    Ghost(w): Ghost<Option<(Seq<AttachmentView>, Seq<char>)>>,
) -> (r: (Vec<Attachment>, usize))
    requires
        i <= cs@.len(),
        (match w {
            Some((l, rest)) => cs@.subrange(i as int, cs@.len() as int) == json_of_attachments(l)
                + rest && rest.len() > 0 && rest[0] == ']',
            None => true,
        }),
    ensures
        i <= r.1 <= cs@.len(),
        cs@.subrange(i as int, r.1 as int) == json_of_attachments(r.0.deep_view()),
        (match w {
            Some((l, rest)) => r.0.deep_view() == l && r.1 == i + json_of_attachments(l).len()
                && cs@.subrange(r.1 as int, cs@.len() as int) == rest,
            None => true,
        }),
{
    let n = cs.len();
    let mut v: Vec<Attachment> = Vec::new();
    let ghost w_first: Option<(AttachmentView, Seq<char>)> = match w {
        Some((l, rest)) => if l.len() > 0 {
            Some(
                (
                    l[0],
                    if l.len() == 1 {
                        rest
                    } else {
                        seq![','] + (json_of_attachments(l.subrange(1, l.len() as int)) + rest)
                    },
                ),
            )
        } else {
            None
        },
        None => None,
    };
    proof {
        match w {
            Some((l, rest)) => {
                if l.len() > 0 {
                    crate::roundtrip::lemma_attachments_split(l, rest);
                }
            },
            None => {},
        }
    }
    let (a0, j0) = match parse_attachment(cs, i, Ghost(w_first)) {
        Some(p) => p,
        None => {
            proof {
                assert(v.deep_view() =~= Seq::<AttachmentView>::empty());
                assert(cs@.subrange(i as int, i as int) =~= json_of_attachments(v.deep_view()));
                match w {
                    Some((l, rest)) => {
                        if l.len() > 0 {
                            assert(false);
                        }
                        assert(json_of_attachments(l) == Seq::<char>::empty());
                        assert(cs@.subrange(i as int, cs@.len() as int) =~= rest);
                    },
                    None => {},
                }
            }
            return (v, i);
        },
    };
    proof {
        match w {
            Some((l, rest)) => {
                if l.len() == 0 {
                    crate::roundtrip::lemma_attachment_head(a0@);
                    assert(cs@.subrange(i as int, cs@.len() as int)[0] == rest[0]);
                    assert(cs@.subrange(i as int, j0 as int)[0] == json_of_attachment(a0@)[0]);
                    assert(cs@.subrange(i as int, cs@.len() as int)[0] == cs@[i as int]);
                    assert(cs@.subrange(i as int, j0 as int)[0] == cs@[i as int]);
                    assert(false);
                }
            },
            None => {},
        }
    }
    v.push(a0);
    let ghost mut idx: int = 1;
    proof {
        assert(v.deep_view() =~= seq![a0@]);
        assert(v.deep_view().drop_last() =~= Seq::<AttachmentView>::empty());
        assert(json_of_attachments(Seq::<AttachmentView>::empty()) == Seq::<char>::empty());
        assert(cs@.subrange(i as int, j0 as int) =~= json_of_attachments(v.deep_view()));
        match w {
            Some((l, rest)) => {
                assert(v.deep_view() =~= l.take(1));
            },
            None => {},
        }
    }
    let mut k = j0;
    let mut going = true;
    while going
        invariant
            i <= k <= n,
            n == cs@.len(),
            v.deep_view().len() >= 1,
            cs@.subrange(i as int, k as int) == json_of_attachments(v.deep_view()),
            (match w {
                Some((l, rest)) => {
                    &&& cs@.subrange(i as int, cs@.len() as int) == json_of_attachments(l) + rest
                    &&& rest.len() > 0 && rest[0] == ']'
                    &&& 1 <= idx <= l.len()
                    &&& v.deep_view() == l.take(idx)
                    &&& (going ==> cs@.subrange(k as int, n as int) == (if idx == l.len() {
                        rest
                    } else {
                        seq![','] + (json_of_attachments(l.subrange(idx, l.len() as int)) + rest)
                    }))
                    &&& (!going ==> idx == l.len() && cs@.subrange(k as int, n as int) == rest)
                },
                None => true,
            }),
        decreases n - k + (if going {
            1int
        } else {
            0int
        }),
    {
        proof {
            reveal_strlit(",");
            assert(","@ =~= seq![',']);
            match w {
                Some((l, rest)) => {
                    if idx < l.len() {
                        lemma_starts_with(
                            cs@,
                            k as int,
                            ","@,
                            json_of_attachments(l.subrange(idx, l.len() as int)) + rest,
                        );
                    } else {
                        lemma_starts_with(cs@, k as int, Seq::<char>::empty(), rest);
                        lemma_index_at(cs@, k as int, rest, 0);
                    }
                },
                None => {},
            }
        }
        let k2 = match expect_lit(cs, k, ",") {
            Some(j) => j,
            None => {
                proof {
                    match w {
                        Some((l, rest)) => {
                            if idx < l.len() {
                                assert(false);
                            }
                        },
                        None => {},
                    }
                }
                going = false;
                continue ;
            },
        };
        proof {
            match w {
                Some((l, rest)) => {
                    if idx == l.len() {
                        assert(cs@.subrange(k as int, (k + 1) as int)[0] == cs@[k as int]);
                        assert(false);
                    }
                },
                None => {},
            }
        }
        let ghost w_next: Option<(AttachmentView, Seq<char>)> = match w {
            Some((l, rest)) => Some(
                (
                    l[idx],
                    if idx + 1 == l.len() {
                        rest
                    } else {
                        seq![','] + (json_of_attachments(l.subrange(idx + 1, l.len() as int))
                            + rest)
                    },
                ),
            ),
            None => None,
        };
        proof {
            match w {
                Some((l, rest)) => {
                    let tail = l.subrange(idx, l.len() as int);
                    crate::roundtrip::lemma_attachments_split(tail, rest);
                    assert(tail[0] == l[idx]);
                    assert(tail.subrange(1, tail.len() as int) =~= l.subrange(
                        idx + 1,
                        l.len() as int,
                    ));
                },
                None => {},
            }
        }
        match parse_attachment(cs, k2, Ghost(w_next)) {
            None => {
                proof {
                    match w {
                        Some((l, rest)) => {
                            assert(false);
                        },
                        None => {},
                    }
                }
                going = false;
            },
            Some((a, k3)) => {
                let ghost prev = v.deep_view();
                v.push(a);
                proof {
                    reveal_strlit(",");
                    assert(","@ =~= seq![',']);
                    assert(v.deep_view() =~= prev.push(a@));
                    crate::roundtrip::lemma_attachments_grow(
                        cs@,
                        i as int,
                        k as int,
                        k2 as int,
                        k3 as int,
                        prev,
                        a@,
                    );
                    match w {
                        Some((l, rest)) => {
                            assert(v.deep_view() =~= l.take(idx + 1));
                            idx = idx + 1;
                        },
                        None => {},
                    }
                }
                k = k3;
            },
        }
    }
    proof {
        match w {
            Some((l, rest)) => {
                assert(v.deep_view() =~= l);
            },
            None => {},
        }
    }
    (v, k)
}

/// Parses the first half of a task object's scalar fields.
#[verifier::rlimit(100)]
#[verifier::spinoff_prover]
fn parse_task_front(
    cs: &Vec<char>,
    i: usize,
    Ghost(w): Ghost<Option<(TaskView, Seq<char>)>>,
) -> (r: Option<((String, String, Option<String>, bool), usize)>)
    requires
        i <= cs@.len(),
        (match w {
            Some((aw, rest)) => cs@.subrange(i as int, cs@.len() as int) == json_of_task_front(aw)
                + rest,
            None => true,
        }),
    ensures
        (match r {
            Some(((id, title, description, completed), j)) => i < j <= cs@.len() && cs@.subrange(
                i as int,
                j as int,
            ) == "{\"id\":"@ + json_str_lit(id@) + ",\"title\":"@ + json_str_lit(title@)
                + ",\"description\":"@ + json_opt_str(
                match description {
                    Some(d) => Some(d@),
                    None => None,
                },
            ) + ",\"completed\":"@ + json_bool(completed),
            None => true,
        }),
        (match w {
            Some((aw, rest)) => match r {
                Some(((id, title, description, completed), j)) => id@ == aw.id && title@
                    == aw.title && (match description {
                    Some(d) => Some(d@),
                    None => None,
                }) == aw.description && completed == aw.completed && j == i + json_of_task_front(
                    aw,
                ).len() && cs@.subrange(j as int, cs@.len() as int) == rest,
                None => false,
            },
            None => true,
        }),
{
    let n = cs.len();
    let ghost wx: Option<(TaskView, Seq<char>)> = w;
    let ghost g8: Seq<char> = match wx {
        Some((aw, rest)) => rest,
        None => Seq::<char>::empty(),
    };
    let ghost g7: Seq<char> = match wx {
        Some((aw, rest)) => json_bool(aw.completed) + g8,
        None => Seq::<char>::empty(),
    };
    let ghost g6: Seq<char> = match wx {
        Some((aw, rest)) => ",\"completed\":"@ + g7,
        None => Seq::<char>::empty(),
    };
    let ghost g5: Seq<char> = match wx {
        Some((aw, rest)) => json_opt_str(aw.description) + g6,
        None => Seq::<char>::empty(),
    };
    let ghost g4: Seq<char> = match wx {
        Some((aw, rest)) => ",\"description\":"@ + g5,
        None => Seq::<char>::empty(),
    };
    let ghost g3: Seq<char> = match wx {
        Some((aw, rest)) => json_str_lit(aw.title) + g4,
        None => Seq::<char>::empty(),
    };
    let ghost g2: Seq<char> = match wx {
        Some((aw, rest)) => ",\"title\":"@ + g3,
        None => Seq::<char>::empty(),
    };
    let ghost g1: Seq<char> = match wx {
        Some((aw, rest)) => json_str_lit(aw.id) + g2,
        None => Seq::<char>::empty(),
    };
    let ghost g0: Seq<char> = match wx {
        Some((aw, rest)) => "{\"id\":"@ + g1,
        None => Seq::<char>::empty(),
    };
    proof {
        match wx {
            Some((aw, rest)) => {
                crate::roundtrip::lemma_chain9(
                    "{\"id\":"@,
                    json_str_lit(aw.id),
                    ",\"title\":"@,
                    json_str_lit(aw.title),
                    ",\"description\":"@,
                    json_opt_str(aw.description),
                    ",\"completed\":"@,
                    json_bool(aw.completed),
                    rest,
                );
                assert(cs@.subrange(i as int, n as int) == g0);
            },
            None => {},
        }
    }
    proof {
        match wx {
            Some((aw, rest)) => {
                lemma_starts_with(cs@, i as int, "{\"id\":"@, g1);
            },
            None => {},
        }
    }
    let j0 = match expect_lit(cs, i, "{\"id\":") {
        Some(j) => j,
        None => {
            proof {
                match wx {
                    Some((aw, rest)) => {
                        assert(false);
                    },
                    None => {},
                }
            }
            return None;
        },
    };
    proof {
        match wx {
            Some((aw, rest)) => {
                lemma_starts_with(cs@, j0 as int, json_str_lit(aw.id), g2);
            },
            None => {},
        }
    }
    let ghost w_id: Option<(Seq<char>, Seq<char>)> = match wx {
        Some((aw, rest)) => Some((aw.id, g2)),
        None => None,
    };
    let (id, j1) = match parse_json_string(cs, j0, Ghost(w_id)) {
        Some(p) => p,
        None => {
            proof {
                match wx {
                    Some((aw, rest)) => {
                        assert(false);
                    },
                    None => {},
                }
            }
            return None;
        },
    };
    proof {
        reveal_strlit(",\"isPinned\":");
        reveal_strlit(",\"isCollapsed\":");
        assert(cs@.subrange(i as int, j1 as int) =~= cs@.subrange(i as int, j0 as int)
            + cs@.subrange(j0 as int, j1 as int));
    }
    proof {
        match wx {
            Some((aw, rest)) => {
                lemma_starts_with(cs@, j1 as int, ",\"title\":"@, g3);
            },
            None => {},
        }
    }
    let j2 = match expect_lit(cs, j1, ",\"title\":") {
        Some(j) => j,
        None => {
            proof {
                match wx {
                    Some((aw, rest)) => {
                        assert(false);
                    },
                    None => {},
                }
            }
            return None;
        },
    };
    proof {
        assert(cs@.subrange(i as int, j2 as int) =~= cs@.subrange(i as int, j1 as int)
            + cs@.subrange(j1 as int, j2 as int));
    }
    proof {
        match wx {
            Some((aw, rest)) => {
                lemma_starts_with(cs@, j2 as int, json_str_lit(aw.title), g4);
            },
            None => {},
        }
    }
    let ghost w_title: Option<(Seq<char>, Seq<char>)> = match wx {
        Some((aw, rest)) => Some((aw.title, g4)),
        None => None,
    };
    let (title, j3) = match parse_json_string(cs, j2, Ghost(w_title)) {
        Some(p) => p,
        None => {
            proof {
                match wx {
                    Some((aw, rest)) => {
                        assert(false);
                    },
                    None => {},
                }
            }
            return None;
        },
    };
    proof {
        assert(cs@.subrange(i as int, j3 as int) =~= cs@.subrange(i as int, j2 as int)
            + cs@.subrange(j2 as int, j3 as int));
    }
    proof {
        match wx {
            Some((aw, rest)) => {
                lemma_starts_with(cs@, j3 as int, ",\"description\":"@, g5);
            },
            None => {},
        }
    }
    let j4 = match expect_lit(cs, j3, ",\"description\":") {
        Some(j) => j,
        None => {
            proof {
                match wx {
                    Some((aw, rest)) => {
                        assert(false);
                    },
                    None => {},
                }
            }
            return None;
        },
    };
    proof {
        assert(cs@.subrange(i as int, j4 as int) =~= cs@.subrange(i as int, j3 as int)
            + cs@.subrange(j3 as int, j4 as int));
    }
    proof {
        match wx {
            Some((aw, rest)) => {
                lemma_starts_with(cs@, j4 as int, json_opt_str(aw.description), g6);
            },
            None => {},
        }
    }
    let ghost w_description: Option<(Option<Seq<char>>, Seq<char>)> = match wx {
        Some((aw, rest)) => Some((aw.description, g6)),
        None => None,
    };
    let (description, j5) = match parse_opt_str(cs, j4, Ghost(w_description)) {
        Some(p) => p,
        None => {
            proof {
                match wx {
                    Some((aw, rest)) => {
                        assert(false);
                    },
                    None => {},
                }
            }
            return None;
        },
    };
    proof {
        assert(cs@.subrange(i as int, j5 as int) =~= cs@.subrange(i as int, j4 as int)
            + cs@.subrange(j4 as int, j5 as int));
    }
    proof {
        match wx {
            Some((aw, rest)) => {
                lemma_starts_with(cs@, j5 as int, ",\"completed\":"@, g7);
            },
            None => {},
        }
    }
    let j6 = match expect_lit(cs, j5, ",\"completed\":") {
        Some(j) => j,
        None => {
            proof {
                match wx {
                    Some((aw, rest)) => {
                        assert(false);
                    },
                    None => {},
                }
            }
            return None;
        },
    };
    proof {
        assert(cs@.subrange(i as int, j6 as int) =~= cs@.subrange(i as int, j5 as int)
            + cs@.subrange(j5 as int, j6 as int));
    }
    proof {
        match wx {
            Some((aw, rest)) => {
                lemma_starts_with(cs@, j6 as int, json_bool(aw.completed), g8);
            },
            None => {},
        }
    }
    let ghost w_completed: Option<(bool, Seq<char>)> = match wx {
        Some((aw, rest)) => Some((aw.completed, g8)),
        None => None,
    };
    let (completed, j7) = match parse_bool(cs, j6, Ghost(w_completed)) {
        Some(p) => p,
        None => {
            proof {
                match wx {
                    Some((aw, rest)) => {
                        assert(false);
                    },
                    None => {},
                }
            }
            return None;
        },
    };
    proof {
        assert(cs@.subrange(i as int, j7 as int) =~= cs@.subrange(i as int, j6 as int)
            + cs@.subrange(j6 as int, j7 as int));
    }
    proof {
        match wx {
            Some((aw, rest)) => {
                assert(cs@.subrange(j7 as int, n as int) == rest);
                assert(cs@.subrange(i as int, j7 as int) =~= json_of_task_front(aw));
            },
            None => {},
        }
    }
    Some(((id, title, description, completed), j7))
}

/// Parses the second half of a task object's scalar fields.
#[verifier::rlimit(100)]
#[verifier::spinoff_prover]
fn parse_task_back(
    cs: &Vec<char>,
    i: usize,
    Ghost(w): Ghost<Option<(TaskView, Seq<char>)>>,
) -> (r: Option<((Priority, Option<String>, String, String), usize)>)
    requires
        i <= cs@.len(),
        (match w {
            Some((aw, rest)) => cs@.subrange(i as int, cs@.len() as int) == json_of_task_back(aw)
                + rest,
            None => true,
        }),
    ensures
        (match r {
            Some(((priority, due_date, created_at, updated_at), j)) => i < j <= cs@.len()
                && cs@.subrange(i as int, j as int) == ",\"priority\":"@ + json_str_lit(
                priority_label(priority),
            ) + ",\"due_date\":"@ + json_opt_str(
                match due_date {
                    Some(d) => Some(d@),
                    None => None,
                },
            ) + ",\"created_at\":"@ + json_str_lit(created_at@) + ",\"updated_at\":"@
                + json_str_lit(updated_at@),
            None => true,
        }),
        (match w {
            Some((aw, rest)) => match r {
                Some(((priority, due_date, created_at, updated_at), j)) => priority == aw.priority
                    && (match due_date {
                    Some(d) => Some(d@),
                    None => None,
                }) == aw.due_date && created_at@ == aw.created_at && updated_at@ == aw.updated_at
                    && j == i + json_of_task_back(aw).len() && cs@.subrange(
                    j as int,
                    cs@.len() as int,
                ) == rest,
                None => false,
            },
            None => true,
        }),
{
    let n = cs.len();
    let ghost wx: Option<(TaskView, Seq<char>)> = w;
    let ghost g8: Seq<char> = match wx {
        Some((aw, rest)) => rest,
        None => Seq::<char>::empty(),
    };
    let ghost g7: Seq<char> = match wx {
        Some((aw, rest)) => json_str_lit(aw.updated_at) + g8,
        None => Seq::<char>::empty(),
    };
    let ghost g6: Seq<char> = match wx {
        Some((aw, rest)) => ",\"updated_at\":"@ + g7,
        None => Seq::<char>::empty(),
    };
    let ghost g5: Seq<char> = match wx {
        Some((aw, rest)) => json_str_lit(aw.created_at) + g6,
        None => Seq::<char>::empty(),
    };
    let ghost g4: Seq<char> = match wx {
        Some((aw, rest)) => ",\"created_at\":"@ + g5,
        None => Seq::<char>::empty(),
    };
    let ghost g3: Seq<char> = match wx {
        Some((aw, rest)) => json_opt_str(aw.due_date) + g4,
        None => Seq::<char>::empty(),
    };
    let ghost g2: Seq<char> = match wx {
        Some((aw, rest)) => ",\"due_date\":"@ + g3,
        None => Seq::<char>::empty(),
    };
    let ghost g1: Seq<char> = match wx {
        Some((aw, rest)) => json_str_lit(priority_label(aw.priority)) + g2,
        None => Seq::<char>::empty(),
    };
    let ghost g0: Seq<char> = match wx {
        Some((aw, rest)) => ",\"priority\":"@ + g1,
        None => Seq::<char>::empty(),
    };
    proof {
        match wx {
            Some((aw, rest)) => {
                crate::roundtrip::lemma_chain9(
                    ",\"priority\":"@,
                    json_str_lit(priority_label(aw.priority)),
                    ",\"due_date\":"@,
                    json_opt_str(aw.due_date),
                    ",\"created_at\":"@,
                    json_str_lit(aw.created_at),
                    ",\"updated_at\":"@,
                    json_str_lit(aw.updated_at),
                    rest,
                );
                assert(cs@.subrange(i as int, n as int) == g0);
            },
            None => {},
        }
    }
    proof {
        match wx {
            Some((aw, rest)) => {
                lemma_starts_with(cs@, i as int, ",\"priority\":"@, g1);
            },
            None => {},
        }
    }
    let j0 = match expect_lit(cs, i, ",\"priority\":") {
        Some(j) => j,
        None => {
            proof {
                match wx {
                    Some((aw, rest)) => {
                        assert(false);
                    },
                    None => {},
                }
            }
            return None;
        },
    };
    proof {
        match wx {
            Some((aw, rest)) => {
                lemma_starts_with(cs@, j0 as int, json_str_lit(priority_label(aw.priority)), g2);
            },
            None => {},
        }
    }
    let ghost w_label: Option<(Seq<char>, Seq<char>)> = match wx {
        Some((aw, rest)) => Some((priority_label(aw.priority), g2)),
        None => None,
    };
    let (label, j1) = match parse_json_string(cs, j0, Ghost(w_label)) {
        Some(p) => p,
        None => {
            proof {
                match wx {
                    Some((aw, rest)) => {
                        assert(false);
                    },
                    None => {},
                }
            }
            return None;
        },
    };
    proof {
        assert(cs@.subrange(i as int, j1 as int) =~= cs@.subrange(i as int, j0 as int)
            + cs@.subrange(j0 as int, j1 as int));
    }
    proof {
        match wx {
            Some((aw, rest)) => {
                lemma_starts_with(cs@, j1 as int, ",\"due_date\":"@, g3);
            },
            None => {},
        }
    }
    let j2 = match expect_lit(cs, j1, ",\"due_date\":") {
        Some(j) => j,
        None => {
            proof {
                match wx {
                    Some((aw, rest)) => {
                        assert(false);
                    },
                    None => {},
                }
            }
            return None;
        },
    };
    proof {
        assert(cs@.subrange(i as int, j2 as int) =~= cs@.subrange(i as int, j1 as int)
            + cs@.subrange(j1 as int, j2 as int));
    }
    proof {
        match wx {
            Some((aw, rest)) => {
                lemma_starts_with(cs@, j2 as int, json_opt_str(aw.due_date), g4);
            },
            None => {},
        }
    }
    let ghost w_due_date: Option<(Option<Seq<char>>, Seq<char>)> = match wx {
        Some((aw, rest)) => Some((aw.due_date, g4)),
        None => None,
    };
    let (due_date, j3) = match parse_opt_str(cs, j2, Ghost(w_due_date)) {
        Some(p) => p,
        None => {
            proof {
                match wx {
                    Some((aw, rest)) => {
                        assert(false);
                    },
                    None => {},
                }
            }
            return None;
        },
    };
    proof {
        assert(cs@.subrange(i as int, j3 as int) =~= cs@.subrange(i as int, j2 as int)
            + cs@.subrange(j2 as int, j3 as int));
    }
    proof {
        match wx {
            Some((aw, rest)) => {
                lemma_starts_with(cs@, j3 as int, ",\"created_at\":"@, g5);
            },
            None => {},
        }
    }
    let j4 = match expect_lit(cs, j3, ",\"created_at\":") {
        Some(j) => j,
        None => {
            proof {
                match wx {
                    Some((aw, rest)) => {
                        assert(false);
                    },
                    None => {},
                }
            }
            return None;
        },
    };
    proof {
        assert(cs@.subrange(i as int, j4 as int) =~= cs@.subrange(i as int, j3 as int)
            + cs@.subrange(j3 as int, j4 as int));
    }
    proof {
        match wx {
            Some((aw, rest)) => {
                lemma_starts_with(cs@, j4 as int, json_str_lit(aw.created_at), g6);
            },
            None => {},
        }
    }
    let ghost w_created_at: Option<(Seq<char>, Seq<char>)> = match wx {
        Some((aw, rest)) => Some((aw.created_at, g6)),
        None => None,
    };
    let (created_at, j5) = match parse_json_string(cs, j4, Ghost(w_created_at)) {
        Some(p) => p,
        None => {
            proof {
                match wx {
                    Some((aw, rest)) => {
                        assert(false);
                    },
                    None => {},
                }
            }
            return None;
        },
    };
    proof {
        assert(cs@.subrange(i as int, j5 as int) =~= cs@.subrange(i as int, j4 as int)
            + cs@.subrange(j4 as int, j5 as int));
    }
    proof {
        match wx {
            Some((aw, rest)) => {
                lemma_starts_with(cs@, j5 as int, ",\"updated_at\":"@, g7);
            },
            None => {},
        }
    }
    let j6 = match expect_lit(cs, j5, ",\"updated_at\":") {
        Some(j) => j,
        None => {
            proof {
                match wx {
                    Some((aw, rest)) => {
                        assert(false);
                    },
                    None => {},
                }
            }
            return None;
        },
    };
    proof {
        assert(cs@.subrange(i as int, j6 as int) =~= cs@.subrange(i as int, j5 as int)
            + cs@.subrange(j5 as int, j6 as int));
    }
    proof {
        match wx {
            Some((aw, rest)) => {
                lemma_starts_with(cs@, j6 as int, json_str_lit(aw.updated_at), g8);
            },
            None => {},
        }
    }
    let ghost w_updated_at: Option<(Seq<char>, Seq<char>)> = match wx {
        Some((aw, rest)) => Some((aw.updated_at, g8)),
        None => None,
    };
    let (updated_at, j7) = match parse_json_string(cs, j6, Ghost(w_updated_at)) {
        Some(p) => p,
        None => {
            proof {
                match wx {
                    Some((aw, rest)) => {
                        assert(false);
                    },
                    None => {},
                }
            }
            return None;
        },
    };
    proof {
        assert(cs@.subrange(i as int, j7 as int) =~= cs@.subrange(i as int, j6 as int)
            + cs@.subrange(j6 as int, j7 as int));
    }
    let priority = if crate::models::str_eq(label.as_str(), "high") {
        Priority::High
    } else if crate::models::str_eq(label.as_str(), "medium") {
        Priority::Medium
    } else if crate::models::str_eq(label.as_str(), "low") {
        Priority::Low
    } else {
        proof {
            match wx {
                Some((aw, rest)) => {
                    match aw.priority {
                        Priority::High => {
                            assert(false);
                        },
                        Priority::Medium => {
                            assert(false);
                        },
                        Priority::Low => {
                            assert(false);
                        },
                    }
                },
                None => {},
            }
        }
        return None;
    };
    proof {
        assert(label@ == priority_label(priority));
        match wx {
            Some((aw, rest)) => {
                crate::roundtrip::lemma_priority_label_injective(aw.priority, priority);
            },
            None => {},
        }
    }
    proof {
        match wx {
            Some((aw, rest)) => {
                assert(cs@.subrange(j7 as int, n as int) == rest);
                assert(cs@.subrange(i as int, j7 as int) =~= json_of_task_back(aw));
            },
            None => {},
        }
    }
    Some(((priority, due_date, created_at, updated_at), j7))
}

/// Parses the scalar fields of a task object at `i`, up to (but not
/// including) the optional attachments key. With a witness, acceptance and
/// the exact field values are guaranteed.
#[verifier::rlimit(100)]
#[verifier::spinoff_prover]
fn parse_task_fields(
    cs: &Vec<char>,
    i: usize,
    Ghost(w): Ghost<Option<(TaskView, Seq<char>)>>,
) -> (r: Option<(Task, usize)>)
    requires
        i <= cs@.len(),
        (match w {
            Some((aw, rest)) => cs@.subrange(i as int, cs@.len() as int) == json_of_task_fields(aw)
                + rest,
            None => true,
        }),
    ensures
        (match r {
            Some((t, j)) => i < j <= cs@.len() && cs@.subrange(i as int, j as int)
                == json_of_task_fields(t@) && t@.attachments is None,
            None => true,
        }),
        (match w {
            Some((aw, rest)) => match r {
                Some((t, j)) => t@.id == aw.id && t@.title == aw.title && t@.description
                    == aw.description && t@.completed == aw.completed && t@.priority == aw.priority
                    && t@.due_date == aw.due_date && t@.created_at == aw.created_at
                    && t@.updated_at == aw.updated_at && j == i + json_of_task_fields(aw).len()
                    && cs@.subrange(j as int, cs@.len() as int) == rest,
                None => false,
            },
            None => true,
        }),
{
    let n = cs.len();
    let ghost wx: Option<(TaskView, Seq<char>)> = w;
    let ghost w_front: Option<(TaskView, Seq<char>)> = match wx {
        Some((aw, rest)) => Some((aw, json_of_task_back(aw) + rest)),
        None => None,
    };
    proof {
        match wx {
            Some((aw, rest)) => {
                crate::roundtrip::lemma_task_fields_halves(aw);
                crate::roundtrip::lemma_assoc(
                    json_of_task_front(aw),
                    json_of_task_back(aw),
                    rest,
                );
            },
            None => {},
        }
    }
    let ((id, title, description, completed), jf) = match parse_task_front(cs, i, Ghost(w_front)) {
        Some(p) => p,
        None => {
            proof {
                match wx {
                    Some((aw, rest)) => {
                        assert(false);
                    },
                    None => {},
                }
            }
            return None;
        },
    };
    let ghost w_back: Option<(TaskView, Seq<char>)> = match wx {
        Some((aw, rest)) => Some((aw, rest)),
        None => None,
    };
    let ((priority, due_date, created_at, updated_at), jb) = match parse_task_back(
        cs,
        jf,
        Ghost(w_back),
    ) {
        Some(p) => p,
        None => {
            proof {
                match wx {
                    Some((aw, rest)) => {
                        assert(false);
                    },
                    None => {},
                }
            }
            return None;
        },
    };
    let t = Task {
        id,
        title,
        description,
        completed,
        priority,
        due_date,
        created_at,
        updated_at,
        attachments: None,
    };
    proof {
        crate::roundtrip::lemma_task_fields_halves(t@);
        assert(cs@.subrange(i as int, jb as int) =~= cs@.subrange(i as int, jf as int)
            + cs@.subrange(jf as int, jb as int));
        assert(cs@.subrange(i as int, jf as int) == json_of_task_front(t@));
        assert(cs@.subrange(jf as int, jb as int) == json_of_task_back(t@));
        match wx {
            Some((aw, rest)) => {
                assert(jb - i == json_of_task_fields(aw).len());
            },
            None => {},
        }
    }
    Some((t, jb))
}

/// Parses one task object at `i`. With a witness, acceptance and the exact
/// task are guaranteed.
#[verifier::rlimit(100)]
#[verifier::spinoff_prover]
fn parse_task(cs: &Vec<char>, i: usize, Ghost(w): Ghost<Option<(TaskView, Seq<char>)>>) -> (r:
    Option<(Task, usize)>)
    requires
        i <= cs@.len(),
        (match w {
            Some((aw, rest)) => cs@.subrange(i as int, cs@.len() as int) == json_of_task(aw)
                + rest,
            None => true,
        }),
    ensures
        (match r {
            Some((t, j)) => i < j <= cs@.len() && cs@.subrange(i as int, j as int) == json_of_task(
                t@,
            ),
            None => true,
        }),
        (match w {
            Some((aw, rest)) => match r {
                Some((t, j)) => t@ == aw && j == i + json_of_task(aw).len() && cs@.subrange(
                    j as int,
                    cs@.len() as int,
                ) == rest,
                None => false,
            },
            None => true,
        }),
{
    let n = cs.len();
    let ghost wx: Option<(TaskView, Seq<char>)> = w;
    let ghost att: Seq<char> = match wx {
        Some((aw, rest)) => match aw.attachments {
            None => Seq::<char>::empty(),
            Some(aa) => ",\"attachments\":["@ + json_of_attachments(aa) + "]"@,
        },
        None => Seq::<char>::empty(),
    };
    let ghost w_fields: Option<(TaskView, Seq<char>)> = match wx {
        Some((aw, rest)) => Some((aw, att + ("}"@ + rest))),
        None => None,
    };
    proof {
        match wx {
            Some((aw, rest)) => {
                lemma_assoc(json_of_task_fields(aw) + att, "}"@, rest);
                lemma_assoc(json_of_task_fields(aw), att, "}"@ + rest);
            },
            None => {},
        }
    }
    let (t, j) = match parse_task_fields(cs, i, Ghost(w_fields)) {
        Some(p) => p,
        None => {
            proof {
                match wx {
                    Some((aw, rest)) => {
                        assert(false);
                    },
                    None => {},
                }
            }
            return None;
        },
    };
    match expect_lit(cs, j, ",\"attachments\":[") {
        None => {
            proof {
                reveal_strlit(",\"attachments\":[");
                match wx {
                    Some((aw, rest)) => {
                        match aw.attachments {
                            Some(aa) => {
                                lemma_assoc(
                                    ",\"attachments\":["@ + json_of_attachments(aa),
                                    "]"@,
                                    "}"@ + rest,
                                );
                                lemma_assoc(
                                    ",\"attachments\":["@,
                                    json_of_attachments(aa),
                                    "]"@ + ("}"@ + rest),
                                );
                                lemma_starts_with(
                                    cs@,
                                    j as int,
                                    ",\"attachments\":["@,
                                    json_of_attachments(aa) + ("]"@ + ("}"@ + rest)),
                                );
                                assert(false);
                            },
                            None => {
                                assert(att == Seq::<char>::empty());
                                assert(cs@.subrange(j as int, n as int) =~= "}"@ + rest);
                                lemma_starts_with(cs@, j as int, "}"@, rest);
                            },
                        }
                    },
                    None => {},
                }
            }
            let j2 = match expect_lit(cs, j, "}") {
                Some(j2) => j2,
                None => {
                    proof {
                        match wx {
                            Some((aw, rest)) => {
                                assert(false);
                            },
                            None => {},
                        }
                    }
                    return None;
                },
            };
            proof {
                assert(cs@.subrange(i as int, j2 as int) =~= cs@.subrange(i as int, j as int)
                    + cs@.subrange(j as int, j2 as int));
                assert(cs@.subrange(i as int, j2 as int) == json_of_task(t@));
                match wx {
                    Some((aw, rest)) => {
                        assert(t@ == aw);
                        assert(j2 - i == json_of_task(aw).len());
                    },
                    None => {},
                }
            }
            Some((t, j2))
        },
        Some(j2) => {
            proof {
                reveal_strlit(",\"attachments\":[");
                reveal_strlit("}");
                match wx {
                    Some((aw, rest)) => {
                        match aw.attachments {
                            None => {
                                assert(att == Seq::<char>::empty());
                                assert(cs@.subrange(j as int, n as int) =~= "}"@ + rest);
                                lemma_starts_with(cs@, j as int, "}"@, rest);
                                lemma_index_at(cs@, j as int, "}"@, 0);
                                lemma_index_at(cs@, j as int, ",\"attachments\":["@, 0);
                                assert(false);
                            },
                            Some(aa) => {
                                lemma_assoc(
                                    ",\"attachments\":["@ + json_of_attachments(aa),
                                    "]"@,
                                    "}"@ + rest,
                                );
                                lemma_assoc(
                                    ",\"attachments\":["@,
                                    json_of_attachments(aa),
                                    "]"@ + ("}"@ + rest),
                                );
                                lemma_starts_with(
                                    cs@,
                                    j as int,
                                    ",\"attachments\":["@,
                                    json_of_attachments(aa) + ("]"@ + ("}"@ + rest)),
                                );
                            },
                        }
                    },
                    None => {},
                }
            }
            let ghost w_items: Option<(Seq<AttachmentView>, Seq<char>)> = match wx {
                Some((aw, rest)) => match aw.attachments {
                    Some(aa) => Some((aa, "]"@ + ("}"@ + rest))),
                    None => None,
                },
                None => None,
            };
            proof {
                reveal_strlit("]");
                match w_items {
                    Some((aa, irest)) => {
                        assert(irest[0] == "]"@[0]);
                        assert(irest[0] == ']');
                    },
                    None => {},
                }
            }
            let (aa, j3) = parse_attachment_items(cs, j2, Ghost(w_items));
            proof {
                match wx {
                    Some((aw, rest)) => {
                        lemma_starts_with(cs@, j3 as int, "]"@, "}"@ + rest);
                    },
                    None => {},
                }
            }
            let j4 = match expect_lit(cs, j3, "]") {
                Some(j4) => j4,
                None => {
                    proof {
                        match wx {
                            Some((aw, rest)) => {
                                assert(false);
                            },
                            None => {},
                        }
                    }
                    return None;
                },
            };
            proof {
                match wx {
                    Some((aw, rest)) => {
                        lemma_starts_with(cs@, j4 as int, "}"@, rest);
                    },
                    None => {},
                }
            }
            let j5 = match expect_lit(cs, j4, "}") {
                Some(j5) => j5,
                None => {
                    proof {
                        match wx {
                            Some((aw, rest)) => {
                                assert(false);
                            },
                            None => {},
                        }
                    }
                    return None;
                },
            };
            let mut t = t;
            let ghost before = t@;
            t.attachments = Some(aa);
            proof {
                assert(json_of_task_fields(t@) == json_of_task_fields(before));
                assert(t@.attachments == Some(aa.deep_view()));
                assert(cs@.subrange(i as int, j5 as int) =~= cs@.subrange(i as int, j as int)
                    + cs@.subrange(j as int, j2 as int) + cs@.subrange(j2 as int, j3 as int)
                    + cs@.subrange(j3 as int, j4 as int) + cs@.subrange(j4 as int, j5 as int));
                assert(cs@.subrange(i as int, j5 as int) =~= json_of_task(t@));
                match wx {
                    Some((aw, rest)) => {
                        assert(t@ == aw);
                        assert(j5 - i == json_of_task(aw).len());
                    },
                    None => {},
                }
            }
            Some((t, j5))
        },
    }
}

/// Parses the comma-joined task objects at `i` (no brackets); an
/// immediate non-object parses as the empty list. The witness's remainder
/// must begin with the closing bracket, which delimits the list.
#[verifier::rlimit(100)]
#[verifier::spinoff_prover]
fn parse_task_items(
    cs: &Vec<char>,
    i: usize,
    Ghost(w): Ghost<Option<(Seq<TaskView>, Seq<char>)>>,
) -> (r: (Vec<Task>, usize))
    requires
        i <= cs@.len(),
        (match w {
            Some((l, rest)) => cs@.subrange(i as int, cs@.len() as int) == json_items_of_tasks(l)
                + rest && rest.len() > 0 && rest[0] == ']',
            None => true,
        }),
    ensures
        i <= r.1 <= cs@.len(),
        cs@.subrange(i as int, r.1 as int) == json_items_of_tasks(r.0.deep_view()),
        (match w {
            Some((l, rest)) => r.0.deep_view() == l && r.1 == i + json_items_of_tasks(l).len()
                && cs@.subrange(r.1 as int, cs@.len() as int) == rest,
            None => true,
        }),
{
    let n = cs.len();
    let mut v: Vec<Task> = Vec::new();
    let ghost w_first: Option<(TaskView, Seq<char>)> = match w {
        Some((l, rest)) => if l.len() > 0 {
            Some(
                (
                    l[0],
                    if l.len() == 1 {
                        rest
                    } else {
                        seq![','] + (json_items_of_tasks(l.subrange(1, l.len() as int)) + rest)
                    },
                ),
            )
        } else {
            None
        },
        None => None,
    };
    proof {
        match w {
            Some((l, rest)) => {
                if l.len() > 0 {
                    crate::roundtrip::lemma_tasks_items_split(l, rest);
                }
            },
            None => {},
        }
    }
    let (a0, j0) = match parse_task(cs, i, Ghost(w_first)) {
        Some(p) => p,
        None => {
            proof {
                assert(v.deep_view() =~= Seq::<TaskView>::empty());
                assert(cs@.subrange(i as int, i as int) =~= json_items_of_tasks(v.deep_view()));
                match w {
                    Some((l, rest)) => {
                        if l.len() > 0 {
                            assert(false);
                        }
                        assert(json_items_of_tasks(l) == Seq::<char>::empty());
                        assert(cs@.subrange(i as int, cs@.len() as int) =~= rest);
                    },
                    None => {},
                }
            }
            return (v, i);
        },
    };
    proof {
        match w {
            Some((l, rest)) => {
                if l.len() == 0 {
                    crate::roundtrip::lemma_task_head(a0@);
                    assert(cs@.subrange(i as int, cs@.len() as int)[0] == rest[0]);
                    assert(cs@.subrange(i as int, j0 as int)[0] == json_of_task(a0@)[0]);
                    assert(cs@.subrange(i as int, cs@.len() as int)[0] == cs@[i as int]);
                    assert(cs@.subrange(i as int, j0 as int)[0] == cs@[i as int]);
                    assert(false);
                }
            },
            None => {},
        }
    }
    v.push(a0);
    let ghost mut idx: int = 1;
    proof {
        assert(v.deep_view() =~= seq![a0@]);
        assert(v.deep_view().drop_last() =~= Seq::<TaskView>::empty());
        assert(json_items_of_tasks(Seq::<TaskView>::empty()) == Seq::<char>::empty());
        assert(cs@.subrange(i as int, j0 as int) =~= json_items_of_tasks(v.deep_view()));
        match w {
            Some((l, rest)) => {
                assert(v.deep_view() =~= l.take(1));
            },
            None => {},
        }
    }
    let mut k = j0;
    let mut going = true;
    while going
        invariant
            i <= k <= n,
            n == cs@.len(),
            v.deep_view().len() >= 1,
            cs@.subrange(i as int, k as int) == json_items_of_tasks(v.deep_view()),
            (match w {
                Some((l, rest)) => {
                    &&& cs@.subrange(i as int, cs@.len() as int) == json_items_of_tasks(l) + rest
                    &&& rest.len() > 0 && rest[0] == ']'
                    &&& 1 <= idx <= l.len()
                    &&& v.deep_view() == l.take(idx)
                    &&& (going ==> cs@.subrange(k as int, n as int) == (if idx == l.len() {
                        rest
                    } else {
                        seq![','] + (json_items_of_tasks(l.subrange(idx, l.len() as int)) + rest)
                    }))
                    &&& (!going ==> idx == l.len() && cs@.subrange(k as int, n as int) == rest)
                },
                None => true,
            }),
        decreases n - k + (if going {
            1int
        } else {
            0int
        }),
    {
        proof {
            reveal_strlit(",");
            assert(","@ =~= seq![',']);
            match w {
                Some((l, rest)) => {
                    if idx < l.len() {
                        lemma_starts_with(
                            cs@,
                            k as int,
                            ","@,
                            json_items_of_tasks(l.subrange(idx, l.len() as int)) + rest,
                        );
                    } else {
                        lemma_starts_with(cs@, k as int, Seq::<char>::empty(), rest);
                        lemma_index_at(cs@, k as int, rest, 0);
                    }
                },
                None => {},
            }
        }
        let k2 = match expect_lit(cs, k, ",") {
            Some(j) => j,
            None => {
                proof {
                    match w {
                        Some((l, rest)) => {
                            if idx < l.len() {
                                assert(false);
                            }
                        },
                        None => {},
                    }
                }
                going = false;
                continue ;
            },
        };
        proof {
            match w {
                Some((l, rest)) => {
                    if idx == l.len() {
                        assert(cs@.subrange(k as int, (k + 1) as int)[0] == cs@[k as int]);
                        assert(false);
                    }
                },
                None => {},
            }
        }
        let ghost w_next: Option<(TaskView, Seq<char>)> = match w {
            Some((l, rest)) => Some(
                (
                    l[idx],
                    if idx + 1 == l.len() {
                        rest
                    } else {
                        seq![','] + (json_items_of_tasks(l.subrange(idx + 1, l.len() as int))
                            + rest)
                    },
                ),
            ),
            None => None,
        };
        proof {
            match w {
                Some((l, rest)) => {
                    let tail = l.subrange(idx, l.len() as int);
                    crate::roundtrip::lemma_tasks_items_split(tail, rest);
                    assert(tail[0] == l[idx]);
                    assert(tail.subrange(1, tail.len() as int) =~= l.subrange(
                        idx + 1,
                        l.len() as int,
                    ));
                },
                None => {},
            }
        }
        match parse_task(cs, k2, Ghost(w_next)) {
            None => {
                proof {
                    match w {
                        Some((l, rest)) => {
                            assert(false);
                        },
                        None => {},
                    }
                }
                going = false;
            },
            Some((a, k3)) => {
                let ghost prev = v.deep_view();
                v.push(a);
                proof {
                    reveal_strlit(",");
                    assert(","@ =~= seq![',']);
                    assert(v.deep_view() =~= prev.push(a@));
                    crate::roundtrip::lemma_tasks_grow(
                        cs@,
                        i as int,
                        k as int,
                        k2 as int,
                        k3 as int,
                        prev,
                        a@,
                    );
                    match w {
                        Some((l, rest)) => {
                            assert(v.deep_view() =~= l.take(idx + 1));
                            idx = idx + 1;
                        },
                        None => {},
                    }
                }
                k = k3;
            },
        }
    }
    proof {
        match w {
            Some((l, rest)) => {
                assert(v.deep_view() =~= l);
            },
            None => {},
        }
    }
    (v, k)
}

/// Parses a whole tasks document. This reader is strict and exact: it
/// accepts a text exactly when it is the canonical rendering of some
/// collection, and then returns precisely that collection. Together with
/// the writer's contract this pins the save/load round trip.
#[verifier::rlimit(100)]
#[verifier::spinoff_prover]
pub fn tasks_from_json(s: &str) -> (r: Option<Vec<Task>>)
    ensures
        (match r {
            Some(out) => s@ == json_of_tasks(out.deep_view()),
            None => forall|v: Seq<TaskView>| s@ != json_of_tasks(v),
        }),
{
    let cs = str_to_chars(s);
    let ghost full: Option<Seq<TaskView>> = if exists|v: Seq<TaskView>| s@ == json_of_tasks(v) {
        Some(choose|v: Seq<TaskView>| s@ == json_of_tasks(v))
    } else {
        None
    };
    proof {
        reveal_strlit("[");
        reveal_strlit("]");
        assert("["@ =~= seq!['[']);
        assert("]"@ =~= seq![']']);
        match full {
            Some(v0) => {
                lemma_assoc(seq!['['], json_items_of_tasks(v0), seq![']']);
                assert(cs@.subrange(0, cs@.len() as int) =~= cs@);
                assert(cs@.subrange(0, cs@.len() as int) == "["@ + (json_items_of_tasks(v0)
                    + "]"@));
                lemma_starts_with(cs@, 0, "["@, json_items_of_tasks(v0) + "]"@);
            },
            None => {},
        }
    }
    let j0 = match expect_lit(&cs, 0, "[") {
        Some(j) => j,
        None => {
            proof {
                match full {
                    Some(v0) => {
                        assert(false);
                    },
                    None => {},
                }
            }
            return None;
        },
    };
    let ghost w_items: Option<(Seq<TaskView>, Seq<char>)> = match full {
        Some(v0) => Some((v0, "]"@)),
        None => None,
    };
    proof {
        match w_items {
            Some((v0, irest)) => {
                assert(irest[0] == ']');
            },
            None => {},
        }
    }
    let (v, j1) = parse_task_items(&cs, j0, Ghost(w_items));
    proof {
        match full {
            Some(v0) => {
                lemma_starts_with(cs@, j1 as int, "]"@, Seq::<char>::empty());
            },
            None => {},
        }
    }
    let j2 = match expect_lit(&cs, j1, "]") {
        Some(j) => j,
        None => {
            proof {
                match full {
                    Some(v0) => {
                        assert(false);
                    },
                    None => {},
                }
            }
            return None;
        },
    };
    if j2 != cs.len() {
        proof {
            match full {
                Some(v0) => {
                    assert(false);
                },
                None => {},
            }
        }
        return None;
    }
    proof {
        assert(cs@ =~= cs@.subrange(0, j0 as int) + cs@.subrange(j0 as int, j1 as int)
            + cs@.subrange(j1 as int, j2 as int));
        assert(cs@ =~= json_of_tasks(v.deep_view()));
    }
    Some(v)
}

/// The scalar fields of the settings document: theme and the four flags.
pub open spec fn json_of_settings_scalars(s: SettingsView) -> Seq<char> {
    "{\"theme\":"@ + json_str_lit(s.theme) + ",\"notifications\":"@ + json_bool(s.notifications)
        + ",\"autoSave\":"@ + json_bool(s.auto_save) + ",\"isPinned\":"@ + json_bool(s.is_pinned)
        + ",\"isCollapsed\":"@ + json_bool(s.is_collapsed)
}

/// The four boolean flags of the settings document.
pub open spec fn json_of_settings_flags(s: SettingsView) -> Seq<char> {
    ",\"notifications\":"@ + json_bool(s.notifications) + ",\"autoSave\":"@ + json_bool(
        s.auto_save,
    ) + ",\"isPinned\":"@ + json_bool(s.is_pinned) + ",\"isCollapsed\":"@ + json_bool(
        s.is_collapsed,
    )
}

/// Parses two of the boolean settings flags.
#[verifier::rlimit(100)]
#[verifier::spinoff_prover]
fn parse_settings_flags_front(
    cs: &Vec<char>,
    i: usize,
    Ghost(w): Ghost<Option<((bool, bool), Seq<char>)>>,
) -> (r: Option<((bool, bool), usize)>)
    requires
        i <= cs@.len(),
        (match w {
            Some(((x1, x2), rest)) => cs@.subrange(i as int, cs@.len() as int) == ((",\"notifications\":"@
                + json_bool(x1)) + ",\"autoSave\":"@ + json_bool(x2)) + rest,
            None => true,
        }),
    ensures
        (match r {
            Some(((b1, b2), j)) => i <= j <= cs@.len() && cs@.subrange(i as int, j as int) == (",\"notifications\":"@
                + json_bool(b1)) + ",\"autoSave\":"@ + json_bool(b2),
            None => true,
        }),
        (match w {
            Some(((x1, x2), rest)) => match r {
                Some(((b1, b2), j)) => b1 == x1 && b2 == x2 && cs@.subrange(
                    j as int,
                    cs@.len() as int,
                ) == rest,
                None => false,
            },
            None => true,
        }),
{
    let n = cs.len();
    let ghost wx: Option<((bool, bool), Seq<char>)> = w;
    let ghost g3: Seq<char> = match wx {
        Some(((x1, x2), rest)) => json_bool(x2) + rest,
        None => Seq::<char>::empty(),
    };
    let ghost g2: Seq<char> = match wx {
        Some(((x1, x2), rest)) => ",\"autoSave\":"@ + g3,
        None => Seq::<char>::empty(),
    };
    let ghost g1: Seq<char> = match wx {
        Some(((x1, x2), rest)) => json_bool(x1) + g2,
        None => Seq::<char>::empty(),
    };
    proof {
        match wx {
            Some(((x1, x2), rest)) => {
                lemma_assoc((",\"notifications\":"@ + json_bool(x1)) + ",\"autoSave\":"@, json_bool(x2), rest);
                lemma_assoc(",\"notifications\":"@ + json_bool(x1), ",\"autoSave\":"@, g3);
                lemma_assoc(",\"notifications\":"@, json_bool(x1), g2);
                lemma_starts_with(cs@, i as int, ",\"notifications\":"@, g1);
            },
            None => {},
        }
    }
    let j0 = match expect_lit(cs, i, ",\"notifications\":") {
        Some(j) => j,
        None => {
            proof {
                match wx {
                    Some(((x1, x2), rest)) => {
                        assert(false);
                    },
                    None => {},
                }
            }
            return None;
        },
    };
    let ghost w1: Option<(bool, Seq<char>)> = match wx {
        Some(((x1, x2), rest)) => Some((x1, g2)),
        None => None,
    };
    let (b1, j1) = match parse_bool(cs, j0, Ghost(w1)) {
        Some(p) => p,
        None => {
            proof {
                match wx {
                    Some(((x1, x2), rest)) => {
                        assert(false);
                    },
                    None => {},
                }
            }
            return None;
        },
    };
    proof {
        match wx {
            Some(((x1, x2), rest)) => {
                lemma_starts_with(cs@, j1 as int, ",\"autoSave\":"@, g3);
            },
            None => {},
        }
    }
    let j2 = match expect_lit(cs, j1, ",\"autoSave\":") {
        Some(j) => j,
        None => {
            proof {
                match wx {
                    Some(((x1, x2), rest)) => {
                        assert(false);
                    },
                    None => {},
                }
            }
            return None;
        },
    };
    let ghost w2: Option<(bool, Seq<char>)> = match wx {
        Some(((x1, x2), rest)) => Some((x2, rest)),
        None => None,
    };
    let (b2, j3) = match parse_bool(cs, j2, Ghost(w2)) {
        Some(p) => p,
        None => {
            proof {
                match wx {
                    Some(((x1, x2), rest)) => {
                        assert(false);
                    },
                    None => {},
                }
            }
            return None;
        },
    };
    proof {
        assert(cs@.subrange(i as int, j1 as int) =~= cs@.subrange(i as int, j0 as int)
            + cs@.subrange(j0 as int, j1 as int));
        assert(cs@.subrange(i as int, j2 as int) =~= cs@.subrange(i as int, j1 as int)
            + cs@.subrange(j1 as int, j2 as int));
        assert(cs@.subrange(i as int, j3 as int) =~= cs@.subrange(i as int, j2 as int)
            + cs@.subrange(j2 as int, j3 as int));
        assert(cs@.subrange(i as int, j3 as int) =~= ((",\"notifications\":"@ + json_bool(b1)) + ",\"autoSave\":"@) + json_bool(
            b2,
        ));
    }
    Some(((b1, b2), j3))
}

/// Parses two of the boolean settings flags.
#[verifier::rlimit(100)]
#[verifier::spinoff_prover]
fn parse_settings_flags_back(
    cs: &Vec<char>,
    i: usize,
    Ghost(w): Ghost<Option<((bool, bool), Seq<char>)>>,
) -> (r: Option<((bool, bool), usize)>)
    requires
        i <= cs@.len(),
        (match w {
            Some(((x1, x2), rest)) => cs@.subrange(i as int, cs@.len() as int) == ((",\"isPinned\":"@
                + json_bool(x1)) + ",\"isCollapsed\":"@ + json_bool(x2)) + rest,
            None => true,
        }),
    ensures
        (match r {
            Some(((b1, b2), j)) => i <= j <= cs@.len() && cs@.subrange(i as int, j as int) == (",\"isPinned\":"@
                + json_bool(b1)) + ",\"isCollapsed\":"@ + json_bool(b2),
            None => true,
        }),
        (match w {
            Some(((x1, x2), rest)) => match r {
                Some(((b1, b2), j)) => b1 == x1 && b2 == x2 && cs@.subrange(
                    j as int,
                    cs@.len() as int,
                ) == rest,
                None => false,
            },
            None => true,
        }),
{
    let n = cs.len();
    let ghost wx: Option<((bool, bool), Seq<char>)> = w;
    let ghost g3: Seq<char> = match wx {
        Some(((x1, x2), rest)) => json_bool(x2) + rest,
        None => Seq::<char>::empty(),
    };
    let ghost g2: Seq<char> = match wx {
        Some(((x1, x2), rest)) => ",\"isCollapsed\":"@ + g3,
        None => Seq::<char>::empty(),
    };
    let ghost g1: Seq<char> = match wx {
        Some(((x1, x2), rest)) => json_bool(x1) + g2,
        None => Seq::<char>::empty(),
    };
    proof {
        match wx {
            Some(((x1, x2), rest)) => {
                lemma_assoc((",\"isPinned\":"@ + json_bool(x1)) + ",\"isCollapsed\":"@, json_bool(x2), rest);
                lemma_assoc(",\"isPinned\":"@ + json_bool(x1), ",\"isCollapsed\":"@, g3);
                lemma_assoc(",\"isPinned\":"@, json_bool(x1), g2);
                lemma_starts_with(cs@, i as int, ",\"isPinned\":"@, g1);
            },
            None => {},
        }
    }
    let j0 = match expect_lit(cs, i, ",\"isPinned\":") {
        Some(j) => j,
        None => {
            proof {
                match wx {
                    Some(((x1, x2), rest)) => {
                        assert(false);
                    },
                    None => {},
                }
            }
            return None;
        },
    };
    let ghost w1: Option<(bool, Seq<char>)> = match wx {
        Some(((x1, x2), rest)) => Some((x1, g2)),
        None => None,
    };
    let (b1, j1) = match parse_bool(cs, j0, Ghost(w1)) {
        Some(p) => p,
        None => {
            proof {
                match wx {
                    Some(((x1, x2), rest)) => {
                        assert(false);
                    },
                    None => {},
                }
            }
            return None;
        },
    };
    proof {
        match wx {
            Some(((x1, x2), rest)) => {
                lemma_starts_with(cs@, j1 as int, ",\"isCollapsed\":"@, g3);
            },
            None => {},
        }
    }
    let j2 = match expect_lit(cs, j1, ",\"isCollapsed\":") {
        Some(j) => j,
        None => {
            proof {
                match wx {
                    Some(((x1, x2), rest)) => {
                        assert(false);
                    },
                    None => {},
                }
            }
            return None;
        },
    };
    let ghost w2: Option<(bool, Seq<char>)> = match wx {
        Some(((x1, x2), rest)) => Some((x2, rest)),
        None => None,
    };
    let (b2, j3) = match parse_bool(cs, j2, Ghost(w2)) {
        Some(p) => p,
        None => {
            proof {
                match wx {
                    Some(((x1, x2), rest)) => {
                        assert(false);
                    },
                    None => {},
                }
            }
            return None;
        },
    };
    proof {
        assert(cs@.subrange(i as int, j1 as int) =~= cs@.subrange(i as int, j0 as int)
            + cs@.subrange(j0 as int, j1 as int));
        assert(cs@.subrange(i as int, j2 as int) =~= cs@.subrange(i as int, j1 as int)
            + cs@.subrange(j1 as int, j2 as int));
        assert(cs@.subrange(i as int, j3 as int) =~= cs@.subrange(i as int, j2 as int)
            + cs@.subrange(j2 as int, j3 as int));
        assert(cs@.subrange(i as int, j3 as int) =~= ((",\"isPinned\":"@ + json_bool(b1)) + ",\"isCollapsed\":"@) + json_bool(
            b2,
        ));
    }
    Some(((b1, b2), j3))
}

/// Parses the four boolean settings flags.
#[verifier::rlimit(100)]
#[verifier::spinoff_prover]
fn parse_settings_flags(
    cs: &Vec<char>,
    i: usize,
    Ghost(w): Ghost<Option<(SettingsView, Seq<char>)>>,
) -> (r: Option<((bool, bool, bool, bool), usize)>)
    requires
        i <= cs@.len(),
        (match w {
            Some((v0, rest)) => cs@.subrange(i as int, cs@.len() as int) == json_of_settings_flags(
                v0,
            ) + rest,
            None => true,
        }),
    ensures
        (match r {
            Some(((notifications, auto_save, is_pinned, is_collapsed), j)) => i <= j <= cs@.len()
                && cs@.subrange(i as int, j as int) == ",\"notifications\":"@ + json_bool(
                notifications,
            ) + ",\"autoSave\":"@ + json_bool(auto_save) + ",\"isPinned\":"@ + json_bool(is_pinned)
                + ",\"isCollapsed\":"@ + json_bool(is_collapsed),
            None => true,
        }),
        (match w {
            Some((v0, rest)) => match r {
                Some(((notifications, auto_save, is_pinned, is_collapsed), j)) => notifications
                    == v0.notifications && auto_save == v0.auto_save && is_pinned == v0.is_pinned
                    && is_collapsed == v0.is_collapsed && cs@.subrange(j as int, cs@.len() as int)
                    == rest,
                None => false,
            },
            None => true,
        }),
{
    let ghost wx: Option<(SettingsView, Seq<char>)> = w;
    let ghost back: Seq<char> = match wx {
        Some((v0, rest)) => (",\"isPinned\":"@ + json_bool(v0.is_pinned)) + ",\"isCollapsed\":"@
            + json_bool(v0.is_collapsed),
        None => Seq::<char>::empty(),
    };
    let ghost w_a: Option<((bool, bool), Seq<char>)> = match wx {
        Some((v0, rest)) => Some(((v0.notifications, v0.auto_save), back + rest)),
        None => None,
    };
    proof {
        match wx {
            Some((v0, rest)) => {
                crate::roundtrip::lemma_settings_flag_halves(v0);
                lemma_assoc(
                    (",\"notifications\":"@ + json_bool(v0.notifications)) + ",\"autoSave\":"@
                        + json_bool(v0.auto_save),
                    back,
                    rest,
                );
            },
            None => {},
        }
    }
    let ((notifications, auto_save), ja) = match parse_settings_flags_front(cs, i, Ghost(w_a)) {
        Some(p) => p,
        None => {
            proof {
                match wx {
                    Some((v0, rest)) => {
                        assert(false);
                    },
                    None => {},
                }
            }
            return None;
        },
    };
    let ghost w_b: Option<((bool, bool), Seq<char>)> = match wx {
        Some((v0, rest)) => Some(((v0.is_pinned, v0.is_collapsed), rest)),
        None => None,
    };
    let ((is_pinned, is_collapsed), jb) = match parse_settings_flags_back(cs, ja, Ghost(w_b)) {
        Some(p) => p,
        None => {
            proof {
                match wx {
                    Some((v0, rest)) => {
                        assert(false);
                    },
                    None => {},
                }
            }
            return None;
        },
    };
    proof {
        assert(cs@.subrange(i as int, jb as int) =~= cs@.subrange(i as int, ja as int)
            + cs@.subrange(ja as int, jb as int));
        crate::roundtrip::lemma_settings_flag_halves(
            SettingsView {
                theme: Seq::<char>::empty(),
                notifications,
                auto_save,
                is_pinned,
                is_collapsed,
                username: None,
                avatar: None,
            },
        );
    }
    Some(((notifications, auto_save, is_pinned, is_collapsed), jb))
}

/// Parses the scalar settings fields (theme and the four flags).
#[verifier::rlimit(100)]
#[verifier::spinoff_prover]
fn parse_settings_scalars(
    cs: &Vec<char>,
    i: usize,
    Ghost(w): Ghost<Option<(SettingsView, Seq<char>)>>,
) -> (r: Option<((String, bool, bool, bool, bool), usize)>)
    requires
        i <= cs@.len(),
        (match w {
            Some((v0, rest)) => cs@.subrange(i as int, cs@.len() as int)
                == json_of_settings_scalars(v0) + rest,
            None => true,
        }),
    ensures
        (match r {
            Some(((theme, notifications, auto_save, is_pinned, is_collapsed), j)) => i < j
                <= cs@.len() && cs@.subrange(i as int, j as int) == "{\"theme\":"@ + json_str_lit(
                theme@,
            ) + ",\"notifications\":"@ + json_bool(notifications) + ",\"autoSave\":"@ + json_bool(
                auto_save,
            ) + ",\"isPinned\":"@ + json_bool(is_pinned) + ",\"isCollapsed\":"@ + json_bool(
                is_collapsed,
            ),
            None => true,
        }),
        (match w {
            Some((v0, rest)) => match r {
                Some(((theme, notifications, auto_save, is_pinned, is_collapsed), j)) => theme@
                    == v0.theme && notifications == v0.notifications && auto_save == v0.auto_save
                    && is_pinned == v0.is_pinned && is_collapsed == v0.is_collapsed && j == i
                    + json_of_settings_scalars(v0).len() && cs@.subrange(
                    j as int,
                    cs@.len() as int,
                ) == rest,
                None => false,
            },
            None => true,
        }),
{
    let n = cs.len();
    let ghost wx: Option<(SettingsView, Seq<char>)> = w;
    proof {
        match wx {
            Some((v0, rest)) => {
                crate::roundtrip::lemma_settings_scalar_halves(v0);
                lemma_assoc("{\"theme\":"@ + json_str_lit(v0.theme), json_of_settings_flags(v0), rest);
                lemma_assoc("{\"theme\":"@, json_str_lit(v0.theme), json_of_settings_flags(v0) + rest);
                lemma_starts_with(
                    cs@,
                    i as int,
                    "{\"theme\":"@,
                    json_str_lit(v0.theme) + (json_of_settings_flags(v0) + rest),
                );
            },
            None => {},
        }
    }
    let j0 = match expect_lit(cs, i, "{\"theme\":") {
        Some(j) => j,
        None => {
            proof {
                match wx {
                    Some((v0, rest)) => {
                        assert(false);
                    },
                    None => {},
                }
            }
            return None;
        },
    };
    let ghost w_theme: Option<(Seq<char>, Seq<char>)> = match wx {
        Some((v0, rest)) => Some((v0.theme, json_of_settings_flags(v0) + rest)),
        None => None,
    };
    let (theme, j1) = match parse_json_string(cs, j0, Ghost(w_theme)) {
        Some(p) => p,
        None => {
            proof {
                match wx {
                    Some((v0, rest)) => {
                        assert(false);
                    },
                    None => {},
                }
            }
            return None;
        },
    };
    let ghost w_flags: Option<(SettingsView, Seq<char>)> = match wx {
        Some((v0, rest)) => Some((v0, rest)),
        None => None,
    };
    let ((notifications, auto_save, is_pinned, is_collapsed), j2) = match parse_settings_flags(
        cs,
        j1,
        Ghost(w_flags),
    ) {
        Some(p) => p,
        None => {
            proof {
                match wx {
                    Some((v0, rest)) => {
                        assert(false);
                    },
                    None => {},
                }
            }
            return None;
        },
    };
    proof {
        assert(cs@.subrange(i as int, j1 as int) =~= cs@.subrange(i as int, j0 as int)
            + cs@.subrange(j0 as int, j1 as int));
        assert(cs@.subrange(i as int, j2 as int) =~= cs@.subrange(i as int, j1 as int)
            + cs@.subrange(j1 as int, j2 as int));
        match wx {
            Some((v0, rest)) => {
                assert(cs@.subrange(j2 as int, n as int) == rest);
                assert(cs@.subrange(i as int, j2 as int) == json_of_settings_scalars(v0));
            },
            None => {},
        }
    }
    Some(((theme, notifications, auto_save, is_pinned, is_collapsed), j2))
}

/// Parses a whole settings document; strict and exact like the tasks
/// reader: it accepts a text exactly when it is the canonical rendering of
/// some settings value, and then returns a value with that rendering.
#[verifier::rlimit(100)]
#[verifier::spinoff_prover]
pub fn settings_from_json(s: &str) -> (r: Option<Settings>)
    ensures
        (match r {
            Some(out) => s@ == json_of_settings(out@),
            None => forall|v: SettingsView| s@ != json_of_settings(v),
        }),
{
    let cs = str_to_chars(s);
    let n = cs.len();
    let ghost full: Option<SettingsView> = if exists|v: SettingsView| s@ == json_of_settings(v) {
        Some(choose|v: SettingsView| s@ == json_of_settings(v))
    } else {
        None
    };
    let ghost optu: Seq<char> = match full {
        Some(v0) => match v0.username {
            None => Seq::<char>::empty(),
            Some(u) => ",\"username\":"@ + json_str_lit(u),
        },
        None => Seq::<char>::empty(),
    };
    let ghost opta: Seq<char> = match full {
        Some(v0) => match v0.avatar {
            None => Seq::<char>::empty(),
            Some(a) => ",\"avatar\":"@ + json_str_lit(a),
        },
        None => Seq::<char>::empty(),
    };
    let ghost w_scalars: Option<(SettingsView, Seq<char>)> = match full {
        Some(v0) => Some((v0, optu + (opta + "}"@))),
        None => None,
    };
    proof {
        match full {
            Some(v0) => {
                lemma_assoc(json_of_settings_scalars(v0) + optu, opta, "}"@);
                lemma_assoc(json_of_settings_scalars(v0), optu, opta + "}"@);
                assert(cs@.subrange(0, n as int) =~= cs@);
                assert(cs@.subrange(0, n as int) == json_of_settings_scalars(v0) + (optu + (opta
                    + "}"@)));
            },
            None => {},
        }
    }
    let ((theme, notifications, auto_save, is_pinned, is_collapsed), j9) =
        match parse_settings_scalars(&cs, 0, Ghost(w_scalars)) {
        Some(p) => p,
        None => {
            proof {
                match full {
                    Some(v0) => {
                        assert(false);
                    },
                    None => {},
                }
            }
            return None;
        },
    };
    proof {
        reveal_strlit(",\"username\":");
        reveal_strlit(",\"avatar\":");
        reveal_strlit("}");
        match full {
            Some(v0) => {
                lemma_starts_with(cs@, j9 as int, optu, opta + "}"@);
                match v0.username {
                    Some(u) => {
                        lemma_assoc(",\"username\":"@, json_str_lit(u), opta + "}"@);
                        lemma_starts_with(
                            cs@,
                            j9 as int,
                            ",\"username\":"@,
                            json_str_lit(u) + (opta + "}"@),
                        );
                    },
                    None => {
                        assert(cs@.subrange(j9 as int, n as int) =~= opta + "}"@);
                        match v0.avatar {
                            Some(a) => {
                                lemma_assoc(",\"avatar\":"@, json_str_lit(a), "}"@);
                                lemma_starts_with(
                                    cs@,
                                    j9 as int,
                                    ",\"avatar\":"@,
                                    json_str_lit(a) + "}"@,
                                );
                            },
                            None => {
                                lemma_starts_with(cs@, j9 as int, "}"@, Seq::<char>::empty());
                            },
                        }
                    },
                }
            },
            None => {},
        }
    }
    let (username, j10) = match expect_lit(&cs, j9, ",\"username\":") {
        None => {
            proof {
                match full {
                    Some(v0) => {
                        match v0.username {
                            Some(u) => {
                                assert(false);
                            },
                            None => {},
                        }
                    },
                    None => {},
                }
            }
            (None, j9)
        },
        Some(ju) => {
            proof {
                match full {
                    Some(v0) => {
                        match v0.username {
                            None => {
                                match v0.avatar {
                                    Some(a) => {
                                        lemma_index_at(cs@, j9 as int, ",\"avatar\":"@, 2);
                                        lemma_index_at(cs@, j9 as int, ",\"username\":"@, 2);
                                        assert(false);
                                    },
                                    None => {
                                        lemma_index_at(cs@, j9 as int, "}"@, 0);
                                        lemma_index_at(cs@, j9 as int, ",\"username\":"@, 0);
                                        assert(false);
                                    },
                                }
                            },
                            Some(u) => {},
                        }
                    },
                    None => {},
                }
            }
            let ghost w_user: Option<(Seq<char>, Seq<char>)> = match full {
                Some(v0) => match v0.username {
                    Some(u) => Some((u, opta + "}"@)),
                    None => None,
                },
                None => None,
            };
            match parse_json_string(&cs, ju, Ghost(w_user)) {
                Some((u, j)) => {
                    proof {
                        assert(cs@.subrange(j9 as int, j as int) =~= cs@.subrange(
                            j9 as int,
                            ju as int,
                        ) + cs@.subrange(ju as int, j as int));
                    }
                    (Some(u), j)
                },
                None => {
                    proof {
                        match full {
                            Some(v0) => {
                                assert(false);
                            },
                            None => {},
                        }
                    }
                    return None;
                },
            }
        },
    };
    proof {
        assert(cs@.subrange(0, j10 as int) =~= cs@.subrange(0, j9 as int) + cs@.subrange(
            j9 as int,
            j10 as int,
        ));
        match full {
            Some(v0) => {
                assert(cs@.subrange(j10 as int, n as int) == opta + "}"@);
                match v0.avatar {
                    Some(a) => {
                        lemma_assoc(",\"avatar\":"@, json_str_lit(a), "}"@);
                        lemma_starts_with(
                            cs@,
                            j10 as int,
                            ",\"avatar\":"@,
                            json_str_lit(a) + "}"@,
                        );
                    },
                    None => {
                        assert(cs@.subrange(j10 as int, n as int) =~= "}"@ + Seq::<char>::empty());
                        lemma_starts_with(cs@, j10 as int, "}"@, Seq::<char>::empty());
                    },
                }
            },
            None => {},
        }
    }
    let (avatar, j11) = match expect_lit(&cs, j10, ",\"avatar\":") {
        None => {
            proof {
                match full {
                    Some(v0) => {
                        match v0.avatar {
                            Some(a) => {
                                assert(false);
                            },
                            None => {},
                        }
                    },
                    None => {},
                }
            }
            (None, j10)
        },
        Some(ja) => {
            proof {
                match full {
                    Some(v0) => {
                        match v0.avatar {
                            None => {
                                lemma_index_at(cs@, j10 as int, "}"@, 0);
                                lemma_index_at(cs@, j10 as int, ",\"avatar\":"@, 0);
                                assert(false);
                            },
                            Some(a) => {},
                        }
                    },
                    None => {},
                }
            }
            let ghost w_av: Option<(Seq<char>, Seq<char>)> = match full {
                Some(v0) => match v0.avatar {
                    Some(a) => Some((a, "}"@)),
                    None => None,
                },
                None => None,
            };
            match parse_json_string(&cs, ja, Ghost(w_av)) {
                Some((a, j)) => {
                    proof {
                        assert(cs@.subrange(j10 as int, j as int) =~= cs@.subrange(
                            j10 as int,
                            ja as int,
                        ) + cs@.subrange(ja as int, j as int));
                    }
                    (Some(a), j)
                },
                None => {
                    proof {
                        match full {
                            Some(v0) => {
                                assert(false);
                            },
                            None => {},
                        }
                    }
                    return None;
                },
            }
        },
    };
    proof {
        assert(cs@.subrange(0, j11 as int) =~= cs@.subrange(0, j10 as int) + cs@.subrange(
            j10 as int,
            j11 as int,
        ));
        match full {
            Some(v0) => {
                assert(cs@.subrange(j11 as int, n as int) == "}"@ + Seq::<char>::empty());
                lemma_starts_with(cs@, j11 as int, "}"@, Seq::<char>::empty());
            },
            None => {},
        }
    }
    let j12 = match expect_lit(&cs, j11, "}") {
        Some(j) => j,
        None => {
            proof {
                match full {
                    Some(v0) => {
                        assert(false);
                    },
                    None => {},
                }
            }
            return None;
        },
    };
    if j12 != cs.len() {
        proof {
            match full {
                Some(v0) => {
                    assert(false);
                },
                None => {},
            }
        }
        return None;
    }
    let out = Settings {
        theme,
        notifications,
        auto_save,
        is_pinned,
        is_collapsed,
        username,
        avatar,
    };
    proof {
        assert(cs@ =~= cs@.subrange(0, j11 as int) + cs@.subrange(j11 as int, j12 as int));
        assert(cs@ =~= json_of_settings(out@));
    }
    Some(out)
}

/// The settings document as text: exactly `json_of_settings` of the value.
#[verifier::rlimit(60)]
pub fn settings_to_json(settings: &Settings) -> (r: String)
    ensures
        r@ == json_of_settings(settings@),
{
    let mut out = String::new();
    out.append("{\"theme\":");
    write_json_str(&mut out, settings.theme.as_str());
    out.append(",\"notifications\":");
    write_bool(&mut out, settings.notifications);
    out.append(",\"autoSave\":");
    write_bool(&mut out, settings.auto_save);
    out.append(",\"isPinned\":");
    write_bool(&mut out, settings.is_pinned);
    out.append(",\"isCollapsed\":");
    write_bool(&mut out, settings.is_collapsed);
    match &settings.username {
        None => {},
        Some(u) => {
            out.append(",\"username\":");
            write_json_str(&mut out, u.as_str());
        },
    }
    match &settings.avatar {
        None => {},
        Some(a) => {
            out.append(",\"avatar\":");
            write_json_str(&mut out, a.as_str());
        },
    }
    out.append("}");
    proof {
        assert(out@ =~= json_of_settings(settings@));
    }
    out
}

} // verus!
