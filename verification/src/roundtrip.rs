//! Injectivity of the document format: two task collections with the same
//! document text are the same collection. Together with the reader's
//! soundness — whatever it accepts is the exact rendering of what it
//! returns — this pins the save/load round trip: loading a saved document
//! yields the collection that was saved, field for field.

use vstd::prelude::*;
use crate::json::{
    dec_digits, esc_char, esc_str, hex_digit, is_digit_char, json_bool, json_items_of_tasks,
    json_of_attachment, json_of_attachments, json_of_task, json_of_task_back, json_of_task_fields,
    json_of_task_front, json_of_tasks, json_opt_str, json_str_lit,
    json_of_settings_flags, json_of_settings_scalars,
};
use crate::models::{AttachmentView, SettingsView, TaskView, priority_label, Priority};

verus! {

/// Cancelling a shared prefix of two equal concatenations.
pub(crate) proof fn lemma_prefix_cancel(p: Seq<char>, x: Seq<char>, y: Seq<char>)
    requires
        p + x == p + y,
    ensures
        x == y,
{
    assert(x =~= (p + x).subrange(p.len() as int, (p + x).len() as int));
    assert(y =~= (p + y).subrange(p.len() as int, (p + y).len() as int));
}

/// Two equal concatenations split at the same length split into equal parts.
pub(crate) proof fn lemma_split_at(a: Seq<char>, s1: Seq<char>, b: Seq<char>, s2: Seq<char>)
    requires
        a + s1 == b + s2,
        a.len() == b.len(),
    ensures
        a == b,
        s1 == s2,
{
    assert forall|k: int| 0 <= k < a.len() implies a[k] == b[k] by {
        assert((a + s1)[k] == a[k]);
        assert((b + s2)[k] == b[k]);
    }
    assert(a =~= b);
    lemma_prefix_cancel(a, s1, s2);
}

/// Concatenation is associative.
pub(crate) proof fn lemma_assoc(x: Seq<char>, y: Seq<char>, z: Seq<char>)
    ensures
        (x + y) + z == x + (y + z),
{
    assert((x + y) + z =~= x + (y + z));
}

/// An eight-segment concatenation with a tail, re-associated to the right.
#[verifier::rlimit(100)]
pub(crate) proof fn lemma_chain9(
    s1: Seq<char>,
    s2: Seq<char>,
    s3: Seq<char>,
    s4: Seq<char>,
    s5: Seq<char>,
    s6: Seq<char>,
    s7: Seq<char>,
    s8: Seq<char>,
    r: Seq<char>,
)
    ensures
        (((((((s1 + s2) + s3) + s4) + s5) + s6) + s7) + s8) + r == s1 + (s2 + (s3 + (s4 + (s5 + (s6 + (s7 + (s8 + r))))))),
{
    lemma_assoc(((((((s1 + s2) + s3) + s4) + s5) + s6) + s7), s8, r);
    lemma_assoc((((((s1 + s2) + s3) + s4) + s5) + s6), s7, (s8 + r));
    lemma_assoc(((((s1 + s2) + s3) + s4) + s5), s6, (s7 + (s8 + r)));
    lemma_assoc((((s1 + s2) + s3) + s4), s5, (s6 + (s7 + (s8 + r))));
    lemma_assoc(((s1 + s2) + s3), s4, (s5 + (s6 + (s7 + (s8 + r)))));
    lemma_assoc((s1 + s2), s3, (s4 + (s5 + (s6 + (s7 + (s8 + r))))));
    lemma_assoc(s1, s2, (s3 + (s4 + (s5 + (s6 + (s7 + (s8 + r)))))));
}

/// A ten-segment concatenation with a tail, re-associated to the right.
#[verifier::rlimit(100)]
pub(crate) proof fn lemma_chain11(
    s1: Seq<char>,
    s2: Seq<char>,
    s3: Seq<char>,
    s4: Seq<char>,
    s5: Seq<char>,
    s6: Seq<char>,
    s7: Seq<char>,
    s8: Seq<char>,
    s9: Seq<char>,
    s10: Seq<char>,
    r: Seq<char>,
)
    ensures
        (((((((((s1 + s2) + s3) + s4) + s5) + s6) + s7) + s8) + s9) + s10) + r == s1 + (s2 + (s3 + (s4 + (s5 + (s6 + (s7 + (s8 + (s9 + (s10 + r))))))))),
{
    lemma_assoc(((((((((s1 + s2) + s3) + s4) + s5) + s6) + s7) + s8) + s9), s10, r);
    lemma_assoc((((((((s1 + s2) + s3) + s4) + s5) + s6) + s7) + s8), s9, (s10 + r));
    lemma_assoc(((((((s1 + s2) + s3) + s4) + s5) + s6) + s7), s8, (s9 + (s10 + r)));
    lemma_assoc((((((s1 + s2) + s3) + s4) + s5) + s6), s7, (s8 + (s9 + (s10 + r))));
    lemma_assoc(((((s1 + s2) + s3) + s4) + s5), s6, (s7 + (s8 + (s9 + (s10 + r)))));
    lemma_assoc((((s1 + s2) + s3) + s4), s5, (s6 + (s7 + (s8 + (s9 + (s10 + r))))));
    lemma_assoc(((s1 + s2) + s3), s4, (s5 + (s6 + (s7 + (s8 + (s9 + (s10 + r)))))));
    lemma_assoc((s1 + s2), s3, (s4 + (s5 + (s6 + (s7 + (s8 + (s9 + (s10 + r))))))));
    lemma_assoc(s1, s2, (s3 + (s4 + (s5 + (s6 + (s7 + (s8 + (s9 + (s10 + r)))))))));
}

/// A thirteen-segment concatenation with a tail, re-associated to the right.
#[verifier::rlimit(100)]
pub(crate) proof fn lemma_chain14(
    s1: Seq<char>,
    s2: Seq<char>,
    s3: Seq<char>,
    s4: Seq<char>,
    s5: Seq<char>,
    s6: Seq<char>,
    s7: Seq<char>,
    s8: Seq<char>,
    s9: Seq<char>,
    s10: Seq<char>,
    s11: Seq<char>,
    s12: Seq<char>,
    s13: Seq<char>,
    r: Seq<char>,
)
    ensures
        ((((((((((((s1 + s2) + s3) + s4) + s5) + s6) + s7) + s8) + s9) + s10) + s11) + s12) + s13)
            + r == s1 + (s2 + (s3 + (s4 + (s5 + (s6 + (s7 + (s8 + (s9 + (s10 + (s11 + (s12 + (s13
            + r)))))))))))),
{
    lemma_assoc((((((((((((s1 + s2) + s3) + s4) + s5) + s6) + s7) + s8) + s9) + s10) + s11) + s12), s13, r);
    lemma_assoc(((((((((((s1 + s2) + s3) + s4) + s5) + s6) + s7) + s8) + s9) + s10) + s11), s12, (s13 + r));
    lemma_assoc((((((((((s1 + s2) + s3) + s4) + s5) + s6) + s7) + s8) + s9) + s10), s11, (s12 + (s13 + r)));
    lemma_assoc(((((((((s1 + s2) + s3) + s4) + s5) + s6) + s7) + s8) + s9), s10, (s11 + (s12 + (s13 + r))));
    lemma_assoc((((((((s1 + s2) + s3) + s4) + s5) + s6) + s7) + s8), s9, (s10 + (s11 + (s12 + (s13 + r)))));
    lemma_assoc(((((((s1 + s2) + s3) + s4) + s5) + s6) + s7), s8, (s9 + (s10 + (s11 + (s12 + (s13 + r))))));
    lemma_assoc((((((s1 + s2) + s3) + s4) + s5) + s6), s7, (s8 + (s9 + (s10 + (s11 + (s12 + (s13 + r)))))));
    lemma_assoc(((((s1 + s2) + s3) + s4) + s5), s6, (s7 + (s8 + (s9 + (s10 + (s11 + (s12 + (s13 + r))))))));
    lemma_assoc((((s1 + s2) + s3) + s4), s5, (s6 + (s7 + (s8 + (s9 + (s10 + (s11 + (s12 + (s13 + r)))))))));
    lemma_assoc(((s1 + s2) + s3), s4, (s5 + (s6 + (s7 + (s8 + (s9 + (s10 + (s11 + (s12 + (s13 + r))))))))));
    lemma_assoc((s1 + s2), s3, (s4 + (s5 + (s6 + (s7 + (s8 + (s9 + (s10 + (s11 + (s12 + (s13 + r)))))))))));
    lemma_assoc(s1, s2, (s3 + (s4 + (s5 + (s6 + (s7 + (s8 + (s9 + (s10 + (s11 + (s12 + (s13 + r))))))))))));
}

/// A sixteen-segment concatenation with a tail, re-associated to the right.
#[verifier::rlimit(100)]
pub(crate) proof fn lemma_chain17(
    s1: Seq<char>,
    s2: Seq<char>,
    s3: Seq<char>,
    s4: Seq<char>,
    s5: Seq<char>,
    s6: Seq<char>,
    s7: Seq<char>,
    s8: Seq<char>,
    s9: Seq<char>,
    s10: Seq<char>,
    s11: Seq<char>,
    s12: Seq<char>,
    s13: Seq<char>,
    s14: Seq<char>,
    s15: Seq<char>,
    s16: Seq<char>,
    r: Seq<char>,
)
    ensures
        (((((((((((((((s1 + s2) + s3) + s4) + s5) + s6) + s7) + s8) + s9) + s10) + s11) + s12)
            + s13) + s14) + s15) + s16) + r == s1 + (s2 + (s3 + (s4 + (s5 + (s6 + (s7 + (s8 + (s9
            + (s10 + (s11 + (s12 + (s13 + (s14 + (s15 + (s16 + r))))))))))))))),
{
    lemma_assoc(((((((((((((((s1 + s2) + s3) + s4) + s5) + s6) + s7) + s8) + s9) + s10) + s11) + s12) + s13) + s14) + s15), s16, r);
    lemma_assoc((((((((((((((s1 + s2) + s3) + s4) + s5) + s6) + s7) + s8) + s9) + s10) + s11) + s12) + s13) + s14), s15, (s16 + r));
    lemma_assoc(((((((((((((s1 + s2) + s3) + s4) + s5) + s6) + s7) + s8) + s9) + s10) + s11) + s12) + s13), s14, (s15 + (s16 + r)));
    lemma_assoc((((((((((((s1 + s2) + s3) + s4) + s5) + s6) + s7) + s8) + s9) + s10) + s11) + s12), s13, (s14 + (s15 + (s16 + r))));
    lemma_assoc(((((((((((s1 + s2) + s3) + s4) + s5) + s6) + s7) + s8) + s9) + s10) + s11), s12, (s13 + (s14 + (s15 + (s16 + r)))));
    lemma_assoc((((((((((s1 + s2) + s3) + s4) + s5) + s6) + s7) + s8) + s9) + s10), s11, (s12 + (s13 + (s14 + (s15 + (s16 + r))))));
    lemma_assoc(((((((((s1 + s2) + s3) + s4) + s5) + s6) + s7) + s8) + s9), s10, (s11 + (s12 + (s13 + (s14 + (s15 + (s16 + r)))))));
    lemma_assoc((((((((s1 + s2) + s3) + s4) + s5) + s6) + s7) + s8), s9, (s10 + (s11 + (s12 + (s13 + (s14 + (s15 + (s16 + r))))))));
    lemma_assoc(((((((s1 + s2) + s3) + s4) + s5) + s6) + s7), s8, (s9 + (s10 + (s11 + (s12 + (s13 + (s14 + (s15 + (s16 + r)))))))));
    lemma_assoc((((((s1 + s2) + s3) + s4) + s5) + s6), s7, (s8 + (s9 + (s10 + (s11 + (s12 + (s13 + (s14 + (s15 + (s16 + r))))))))));
    lemma_assoc(((((s1 + s2) + s3) + s4) + s5), s6, (s7 + (s8 + (s9 + (s10 + (s11 + (s12 + (s13 + (s14 + (s15 + (s16 + r)))))))))));
    lemma_assoc((((s1 + s2) + s3) + s4), s5, (s6 + (s7 + (s8 + (s9 + (s10 + (s11 + (s12 + (s13 + (s14 + (s15 + (s16 + r))))))))))));
    lemma_assoc(((s1 + s2) + s3), s4, (s5 + (s6 + (s7 + (s8 + (s9 + (s10 + (s11 + (s12 + (s13 + (s14 + (s15 + (s16 + r)))))))))))));
    lemma_assoc((s1 + s2), s3, (s4 + (s5 + (s6 + (s7 + (s8 + (s9 + (s10 + (s11 + (s12 + (s13 + (s14 + (s15 + (s16 + r))))))))))))));
    lemma_assoc(s1, s2, (s3 + (s4 + (s5 + (s6 + (s7 + (s8 + (s9 + (s10 + (s11 + (s12 + (s13 + (s14 + (s15 + (s16 + r)))))))))))))));
}

/// The hexadecimal digit characters are pairwise distinct.
pub(crate) proof fn lemma_hex_digit_injective(x: int, y: int)
    requires
        0 <= x < 16,
        0 <= y < 16,
        hex_digit(x) == hex_digit(y),
    ensures
        x == y,
{
}

/// Every character of a decimal rendering is a digit.
pub(crate) proof fn lemma_dec_digits_are_digits(n: nat)
    ensures
        forall|k: int| 0 <= k < dec_digits(n).len() ==> is_digit_char(#[trigger] dec_digits(n)[k]),
        dec_digits(n).len() >= 1,
    decreases n,
{
    if n >= 10 {
        lemma_dec_digits_are_digits(n / 10);
    }
}

/// Equal decimal renderings come from equal numbers.
pub(crate) proof fn lemma_dec_digits_injective(m: nat, n: nat)
    requires
        dec_digits(m) == dec_digits(n),
    ensures
        m == n,
    decreases m,
{
    lemma_dec_digits_are_digits(m / 10);
    lemma_dec_digits_are_digits(n / 10);
    if m < 10 && n < 10 {
        assert(dec_digits(m)[0] == hex_digit(m as int));
        assert(dec_digits(n)[0] == hex_digit(n as int));
        lemma_hex_digit_injective(m as int, n as int);
    } else if m >= 10 && n >= 10 {
        assert(dec_digits(m).last() == hex_digit((m % 10) as int));
        assert(dec_digits(n).last() == hex_digit((n % 10) as int));
        lemma_hex_digit_injective((m % 10) as int, (n % 10) as int);
        assert(dec_digits(m).drop_last() == dec_digits(m / 10));
        assert(dec_digits(n).drop_last() == dec_digits(n / 10));
        lemma_dec_digits_injective(m / 10, n / 10);
    } else {
        if m < 10 {
            assert(dec_digits(m).len() == 1);
            assert(dec_digits(n) == dec_digits(n / 10).push(hex_digit((n % 10) as int)));
            assert(dec_digits(n).len() >= 2);
        } else {
            assert(dec_digits(n).len() == 1);
            assert(dec_digits(m) == dec_digits(m / 10).push(hex_digit((m % 10) as int)));
            assert(dec_digits(m).len() >= 2);
        }
        assert(false);
    }
}

/// A decimal rendering followed by a non-digit determines the number and
/// the rest.
pub(crate) proof fn lemma_dec_digits_determinism(m: nat, n: nat, r: Seq<char>, t: Seq<char>)
    requires
        dec_digits(m) + r == dec_digits(n) + t,
        r.len() > 0,
        t.len() > 0,
        !is_digit_char(r[0]),
        !is_digit_char(t[0]),
    ensures
        m == n,
        r == t,
{
    let dm = dec_digits(m);
    let dn = dec_digits(n);
    lemma_dec_digits_are_digits(m);
    lemma_dec_digits_are_digits(n);
    if dm.len() < dn.len() {
        assert((dm + r)[dm.len() as int] == r[0]);
        assert((dn + t)[dm.len() as int] == dn[dm.len() as int]);
        assert(is_digit_char(dn[dm.len() as int]));
        assert(false);
    }
    if dn.len() < dm.len() {
        assert((dn + t)[dn.len() as int] == t[0]);
        assert((dm + r)[dn.len() as int] == dm[dn.len() as int]);
        assert(is_digit_char(dm[dn.len() as int]));
        assert(false);
    }
    lemma_split_at(dm, r, dn, t);
    lemma_dec_digits_injective(m, n);
}

/// A concatenation equation read as "the text at `j` starts with `l`".
pub(crate) proof fn lemma_starts_with(s: Seq<char>, j: int, l: Seq<char>, x: Seq<char>)
    requires
        0 <= j <= s.len(),
        s.subrange(j, s.len() as int) == l + x,
    ensures
        j + l.len() <= s.len(),
        s.subrange(j, j + l.len() as int) == l,
        s.subrange(j + l.len() as int, s.len() as int) == x,
{
    assert(s.subrange(j, s.len() as int).len() == l.len() + x.len());
    assert forall|m: int| 0 <= m < l.len() implies s.subrange(j, j + l.len() as int)[m]
        == l[m] by {
        assert(s.subrange(j, s.len() as int)[m] == (l + x)[m]);
    }
    assert(s.subrange(j, j + l.len() as int) =~= l);
    assert forall|m: int| 0 <= m < x.len() implies s.subrange(
        j + l.len() as int,
        s.len() as int,
    )[m] == x[m] by {
        assert(s.subrange(j, s.len() as int)[l.len() + m] == s[j + l.len() + m]);
        assert((l + x)[l.len() + m] == x[m]);
        assert(s.subrange(j + l.len() as int, s.len() as int)[m] == s[j + l.len() + m]);
    }
    assert(s.subrange(j + l.len() as int, s.len() as int) =~= x);
}

/// Reading one character out of a matched prefix.
pub(crate) proof fn lemma_index_at(s: Seq<char>, j: int, l: Seq<char>, m: int)
    requires
        0 <= j,
        0 <= m < l.len(),
        j + l.len() <= s.len(),
        s.subrange(j, j + l.len() as int) == l,
    ensures
        s[j + m] == l[m],
{
    assert(s.subrange(j, j + l.len() as int)[m] == s[j + m]);
}

/// A number whose rendering is a prefix of another's is no larger.
pub(crate) proof fn lemma_dec_prefix_le(x: nat, n: nat, j: int)
    requires
        1 <= j <= dec_digits(n).len(),
        dec_digits(x) == dec_digits(n).take(j),
    ensures
        x <= n,
    decreases n,
{
    lemma_dec_digits_are_digits(n);
    lemma_dec_digits_are_digits(x);
    if j == dec_digits(n).len() {
        assert(dec_digits(n).take(j) =~= dec_digits(n));
        lemma_dec_digits_injective(x, n);
    } else {
        assert(dec_digits(n).len() >= 2);
        assert(n >= 10);
        assert(dec_digits(n) == dec_digits(n / 10).push(hex_digit((n % 10) as int)));
        assert(dec_digits(n).take(j) =~= dec_digits(n / 10).take(j));
        lemma_dec_prefix_le(x, n / 10, j);
    }
}

/// A positive number's rendering does not begin with a zero digit.
pub(crate) proof fn lemma_dec_leading_nonzero(n: nat)
    requires
        n >= 1,
    ensures
        dec_digits(n)[0] != hex_digit(0),
    decreases n,
{
    if n < 10 {
        assert(dec_digits(n)[0] == hex_digit(n as int));
        if dec_digits(n)[0] == hex_digit(0) {
            assert(hex_digit(n as int) == hex_digit(0));
            lemma_hex_digit_injective(n as int, 0);
            assert(false);
        }
    } else {
        lemma_dec_digits_are_digits(n / 10);
        assert(dec_digits(n) == dec_digits(n / 10).push(hex_digit((n % 10) as int)));
        assert(dec_digits(n)[0] == dec_digits(n / 10)[0]);
        lemma_dec_leading_nonzero(n / 10);
    }
}

/// The shape of one escaped character: it is never empty, never begins with
/// a quote, and begins with a backslash exactly when the character needed
/// escaping.
pub(crate) proof fn lemma_esc_char_shape(c: char)
    ensures
        esc_char(c).len() >= 1,
        esc_char(c)[0] != '"',
        (c == '"' || c == '\\' || (c as u32) < 0x20) ==> esc_char(c)[0] == '\\' && esc_char(
            c,
        ).len() >= 2,
        !(c == '"' || c == '\\' || (c as u32) < 0x20) ==> esc_char(c) == seq![c],
        c == '"' ==> esc_char(c) == seq!['\\', '"'],
        c == '\\' ==> esc_char(c) == seq!['\\', '\\'],
        (c != '"' && c != '\\' && (c as u32) < 0x20) ==> esc_char(c)[1] == 'u' && esc_char(c).len()
            == 6 && esc_char(c)[2] == '0' && esc_char(c)[3] == '0' && esc_char(c)[4] == hex_digit(
            (c as u32) as int / 16,
        ) && esc_char(c)[5] == hex_digit((c as u32) as int % 16),
{
}

/// The escaped string unfolds from the front as well.
pub(crate) proof fn lemma_esc_str_first(s: Seq<char>)
    requires
        s.len() > 0,
    ensures
        esc_str(s) == esc_char(s[0]) + esc_str(s.subrange(1, s.len() as int)),
    decreases s.len(),
{
    if s.len() == 1 {
        assert(s.drop_last() =~= Seq::<char>::empty());
        assert(esc_str(Seq::<char>::empty()) == Seq::<char>::empty());
        assert(s.subrange(1, 1) =~= Seq::<char>::empty());
        assert(esc_str(s) =~= esc_char(s[0]) + esc_str(s.subrange(1, 1)));
    } else {
        let d = s.drop_last();
        lemma_esc_str_first(d);
        let s1 = s.subrange(1, s.len() as int);
        assert(d.subrange(1, d.len() as int) =~= s1.drop_last());
        assert(s1.last() == s.last());
        assert(esc_str(s) =~= esc_char(s[0]) + esc_str(s1));
    }
}

/// An escaped string body, its closing quote and whatever follows determine
/// the body and what follows: escaping is a prefix code ended by the first
/// unescaped quote.
#[verifier::rlimit(100)]
#[verifier::spinoff_prover]
pub(crate) proof fn lemma_esc_determinism(a: Seq<char>, b: Seq<char>, r: Seq<char>, t: Seq<char>)
    requires
        esc_str(a) + seq!['"'] + r == esc_str(b) + seq!['"'] + t,
    ensures
        a == b,
        r == t,
    decreases a.len(),
{
    let whole = esc_str(a) + seq!['"'] + r;
    if a.len() == 0 {
        assert(esc_str(a) == Seq::<char>::empty());
        assert(whole[0] == '"');
        if b.len() > 0 {
            lemma_esc_str_first(b);
            lemma_esc_char_shape(b[0]);
            assert(whole[0] == esc_char(b[0])[0]);
            assert(false);
        }
        assert(esc_str(b) == Seq::<char>::empty());
        assert((esc_str(a) + seq!['"']) =~= (esc_str(b) + seq!['"']));
        lemma_prefix_cancel(esc_str(a) + seq!['"'], r, t);
        assert(a =~= b);
    } else if b.len() == 0 {
        assert(esc_str(b) == Seq::<char>::empty());
        assert(whole[0] == '"');
        lemma_esc_str_first(a);
        lemma_esc_char_shape(a[0]);
        assert(whole[0] == esc_char(a[0])[0]);
        assert(false);
    } else {
        lemma_esc_str_first(a);
        lemma_esc_str_first(b);
        lemma_esc_char_shape(a[0]);
        lemma_esc_char_shape(b[0]);
        let ua = esc_char(a[0]);
        let ub = esc_char(b[0]);
        let a1 = a.subrange(1, a.len() as int);
        let b1 = b.subrange(1, b.len() as int);
        let resta = esc_str(a1) + seq!['"'] + r;
        let restb = esc_str(b1) + seq!['"'] + t;
        assert(whole =~= ua + resta);
        assert(whole =~= ub + restb);
        assert(whole[0] == (ua + resta)[0] && (ua + resta)[0] == ua[0]);
        assert(whole[0] == (ub + restb)[0] && (ub + restb)[0] == ub[0]);
        assert(ua[0] == ub[0]);
        let ea = a[0] == '"' || a[0] == '\\' || (a[0] as u32) < 0x20;
        let eb = b[0] == '"' || b[0] == '\\' || (b[0] as u32) < 0x20;
        if !ea && !eb {
            assert(a[0] == b[0]);
        } else if ea && !eb {
            assert(ub[0] == b[0] && b[0] == '\\');
            assert(false);
        } else if !ea && eb {
            assert(ua[0] == a[0] && a[0] == '\\');
            assert(false);
        } else {
            assert(whole[1] == (ua + resta)[1] && (ua + resta)[1] == ua[1]);
            assert(whole[1] == (ub + restb)[1] && (ub + restb)[1] == ub[1]);
            if a[0] == '"' || a[0] == '\\' {
                assert(ua[1] == '"' || ua[1] == '\\');
                assert(b[0] == '"' || b[0] == '\\');
                assert(a[0] == b[0]);
            } else {
                assert(ua[1] == 'u');
                assert(!(b[0] == '"' || b[0] == '\\'));
                assert(ua.len() == 6 && ub.len() == 6);
                assert(whole[4] == (ua + resta)[4] && (ua + resta)[4] == ua[4]);
                assert(whole[4] == (ub + restb)[4] && (ub + restb)[4] == ub[4]);
                assert(whole[5] == (ua + resta)[5] && (ua + resta)[5] == ua[5]);
                assert(whole[5] == (ub + restb)[5] && (ub + restb)[5] == ub[5]);
                lemma_hex_digit_injective(
                    (a[0] as u32) as int / 16,
                    (b[0] as u32) as int / 16,
                );
                lemma_hex_digit_injective(
                    (a[0] as u32) as int % 16,
                    (b[0] as u32) as int % 16,
                );
                assert((a[0] as u32) as int == 16 * ((a[0] as u32) as int / 16) + (
                a[0] as u32) as int % 16);
                assert((b[0] as u32) as int == 16 * ((b[0] as u32) as int / 16) + (
                b[0] as u32) as int % 16);
                assert(a[0] as u32 == b[0] as u32);
                vstd::utf8::char_u32_cast(a[0], a[0] as u32);
                vstd::utf8::char_u32_cast(b[0], b[0] as u32);
                assert(a[0] == b[0]);
            }
        }
        assert(ua == ub);
        lemma_prefix_cancel(ua, resta, restb);
        lemma_esc_determinism(a1, b1, r, t);
        assert(a =~= seq![a[0]] + a1);
        assert(b =~= seq![b[0]] + b1);
    }
}

/// A JSON string literal and whatever follows determine the string and what
/// follows.
pub(crate) proof fn lemma_str_lit_determinism(a: Seq<char>, b: Seq<char>, r: Seq<char>, t: Seq<char>)
    requires
        json_str_lit(a) + r == json_str_lit(b) + t,
    ensures
        a == b,
        r == t,
{
    let xa = esc_str(a) + seq!['"'] + r;
    let xb = esc_str(b) + seq!['"'] + t;
    assert(json_str_lit(a) + r =~= seq!['"'] + xa);
    assert(json_str_lit(b) + t =~= seq!['"'] + xb);
    lemma_prefix_cancel(seq!['"'], xa, xb);
    lemma_esc_determinism(a, b, r, t);
}

/// A boolean rendering and whatever follows determine the value and the
/// rest.
pub(crate) proof fn lemma_bool_determinism(x: bool, y: bool, r: Seq<char>, t: Seq<char>)
    requires
        json_bool(x) + r == json_bool(y) + t,
    ensures
        x == y,
        r == t,
{
    reveal_strlit("true");
    reveal_strlit("false");
    if x != y {
        assert((json_bool(x) + r)[0] == json_bool(x)[0]);
        assert((json_bool(y) + t)[0] == json_bool(y)[0]);
        assert(false);
    }
    lemma_prefix_cancel(json_bool(x), r, t);
}

/// An optional-string rendering and whatever follows determine the value
/// and the rest.
pub(crate) proof fn lemma_opt_str_determinism(
    o: Option<Seq<char>>,
    p: Option<Seq<char>>,
    r: Seq<char>,
    t: Seq<char>,
)
    requires
        json_opt_str(o) + r == json_opt_str(p) + t,
    ensures
        o == p,
        r == t,
{
    reveal_strlit("null");
    match (o, p) {
        (None, None) => {
            lemma_prefix_cancel("null"@, r, t);
        },
        (Some(a), Some(b)) => {
            lemma_str_lit_determinism(a, b, r, t);
        },
        (None, Some(b)) => {
            assert((json_opt_str(o) + r)[0] == "null"@[0]);
            assert(json_str_lit(b) =~= seq!['"'] + (esc_str(b) + seq!['"']));
            assert((json_opt_str(p) + t)[0] == '"');
            assert(false);
        },
        (Some(a), None) => {
            assert((json_opt_str(p) + t)[0] == "null"@[0]);
            assert(json_str_lit(a) =~= seq!['"'] + (esc_str(a) + seq!['"']));
            assert((json_opt_str(o) + r)[0] == '"');
            assert(false);
        },
    }
}

/// An attachment object begins with an opening brace.
pub(crate) proof fn lemma_attachment_head(e: AttachmentView)
    ensures
        json_of_attachment(e).len() >= 1,
        json_of_attachment(e)[0] == '{',
{
    reveal_strlit("{\"id\":");
    assert(json_of_attachment(e)[0] == "{\"id\":"@[0]);
}

/// An attachment object and whatever follows determine the attachment and
/// the rest.
#[verifier::rlimit(100)]
#[verifier::spinoff_prover]
pub(crate) proof fn lemma_attachment_determinism(
    a: AttachmentView,
    b: AttachmentView,
    r: Seq<char>,
    t: Seq<char>,
)
    requires
        json_of_attachment(a) + r == json_of_attachment(b) + t,
    ensures
        a == b,
        r == t,
{
    reveal_strlit(",\"type\":");
    let ra = json_str_lit(a.id) + (",\"name\":"@ + (json_str_lit(a.name) + (",\"size\":"@ + (
    dec_digits(a.size as nat) + (",\"type\":"@ + (json_str_lit(a.file_type) + (",\"data\":"@ + (
    json_str_lit(a.data) + (",\"created_at\":"@ + (json_str_lit(a.created_at) + ("}"@
        + r)))))))))));
    let rb = json_str_lit(b.id) + (",\"name\":"@ + (json_str_lit(b.name) + (",\"size\":"@ + (
    dec_digits(b.size as nat) + (",\"type\":"@ + (json_str_lit(b.file_type) + (",\"data\":"@ + (
    json_str_lit(b.data) + (",\"created_at\":"@ + (json_str_lit(b.created_at) + ("}"@
        + t)))))))))));
    lemma_chain14(
        "{\"id\":"@,
        json_str_lit(a.id),
        ",\"name\":"@,
        json_str_lit(a.name),
        ",\"size\":"@,
        dec_digits(a.size as nat),
        ",\"type\":"@,
        json_str_lit(a.file_type),
        ",\"data\":"@,
        json_str_lit(a.data),
        ",\"created_at\":"@,
        json_str_lit(a.created_at),
        "}"@,
        r,
    );
    lemma_chain14(
        "{\"id\":"@,
        json_str_lit(b.id),
        ",\"name\":"@,
        json_str_lit(b.name),
        ",\"size\":"@,
        dec_digits(b.size as nat),
        ",\"type\":"@,
        json_str_lit(b.file_type),
        ",\"data\":"@,
        json_str_lit(b.data),
        ",\"created_at\":"@,
        json_str_lit(b.created_at),
        "}"@,
        t,
    );
    assert(json_of_attachment(a) + r == "{\"id\":"@ + ra);
    assert(json_of_attachment(b) + t == "{\"id\":"@ + rb);
    lemma_prefix_cancel("{\"id\":"@, ra, rb);
    lemma_str_lit_determinism(
        a.id,
        b.id,
        ",\"name\":"@ + (json_str_lit(a.name) + (",\"size\":"@ + (dec_digits(a.size as nat) + (
        ",\"type\":"@ + (json_str_lit(a.file_type) + (",\"data\":"@ + (json_str_lit(a.data) + (
        ",\"created_at\":"@ + (json_str_lit(a.created_at) + ("}"@ + r)))))))))),
        ",\"name\":"@ + (json_str_lit(b.name) + (",\"size\":"@ + (dec_digits(b.size as nat) + (
        ",\"type\":"@ + (json_str_lit(b.file_type) + (",\"data\":"@ + (json_str_lit(b.data) + (
        ",\"created_at\":"@ + (json_str_lit(b.created_at) + ("}"@ + t)))))))))),
    );
    lemma_prefix_cancel(
        ",\"name\":"@,
        json_str_lit(a.name) + (",\"size\":"@ + (dec_digits(a.size as nat) + (",\"type\":"@ + (
        json_str_lit(a.file_type) + (",\"data\":"@ + (json_str_lit(a.data) + (",\"created_at\":"@
            + (json_str_lit(a.created_at) + ("}"@ + r))))))))),
        json_str_lit(b.name) + (",\"size\":"@ + (dec_digits(b.size as nat) + (",\"type\":"@ + (
        json_str_lit(b.file_type) + (",\"data\":"@ + (json_str_lit(b.data) + (",\"created_at\":"@
            + (json_str_lit(b.created_at) + ("}"@ + t))))))))),
    );
    lemma_str_lit_determinism(
        a.name,
        b.name,
        ",\"size\":"@ + (dec_digits(a.size as nat) + (",\"type\":"@ + (json_str_lit(a.file_type)
            + (",\"data\":"@ + (json_str_lit(a.data) + (",\"created_at\":"@ + (json_str_lit(
            a.created_at,
        ) + ("}"@ + r)))))))),
        ",\"size\":"@ + (dec_digits(b.size as nat) + (",\"type\":"@ + (json_str_lit(b.file_type)
            + (",\"data\":"@ + (json_str_lit(b.data) + (",\"created_at\":"@ + (json_str_lit(
            b.created_at,
        ) + ("}"@ + t)))))))),
    );
    lemma_prefix_cancel(
        ",\"size\":"@,
        dec_digits(a.size as nat) + (",\"type\":"@ + (json_str_lit(a.file_type) + (",\"data\":"@
            + (json_str_lit(a.data) + (",\"created_at\":"@ + (json_str_lit(a.created_at) + ("}"@
            + r))))))),
        dec_digits(b.size as nat) + (",\"type\":"@ + (json_str_lit(b.file_type) + (",\"data\":"@
            + (json_str_lit(b.data) + (",\"created_at\":"@ + (json_str_lit(b.created_at) + ("}"@
            + t))))))),
    );
    let num_rest_a = ",\"type\":"@ + (json_str_lit(a.file_type) + (",\"data\":"@ + (json_str_lit(
        a.data,
    ) + (",\"created_at\":"@ + (json_str_lit(a.created_at) + ("}"@ + r))))));
    let num_rest_b = ",\"type\":"@ + (json_str_lit(b.file_type) + (",\"data\":"@ + (json_str_lit(
        b.data,
    ) + (",\"created_at\":"@ + (json_str_lit(b.created_at) + ("}"@ + t))))));
    assert(num_rest_a[0] == ',' && num_rest_b[0] == ',');
    lemma_dec_digits_determinism(a.size as nat, b.size as nat, num_rest_a, num_rest_b);
    assert(a.size == b.size);
    lemma_prefix_cancel(
        ",\"type\":"@,
        json_str_lit(a.file_type) + (",\"data\":"@ + (json_str_lit(a.data) + (",\"created_at\":"@
            + (json_str_lit(a.created_at) + ("}"@ + r))))),
        json_str_lit(b.file_type) + (",\"data\":"@ + (json_str_lit(b.data) + (",\"created_at\":"@
            + (json_str_lit(b.created_at) + ("}"@ + t))))),
    );
    lemma_str_lit_determinism(
        a.file_type,
        b.file_type,
        ",\"data\":"@ + (json_str_lit(a.data) + (",\"created_at\":"@ + (json_str_lit(a.created_at)
            + ("}"@ + r)))),
        ",\"data\":"@ + (json_str_lit(b.data) + (",\"created_at\":"@ + (json_str_lit(b.created_at)
            + ("}"@ + t)))),
    );
    lemma_prefix_cancel(
        ",\"data\":"@,
        json_str_lit(a.data) + (",\"created_at\":"@ + (json_str_lit(a.created_at) + ("}"@ + r))),
        json_str_lit(b.data) + (",\"created_at\":"@ + (json_str_lit(b.created_at) + ("}"@ + t))),
    );
    lemma_str_lit_determinism(
        a.data,
        b.data,
        ",\"created_at\":"@ + (json_str_lit(a.created_at) + ("}"@ + r)),
        ",\"created_at\":"@ + (json_str_lit(b.created_at) + ("}"@ + t)),
    );
    lemma_prefix_cancel(
        ",\"created_at\":"@,
        json_str_lit(a.created_at) + ("}"@ + r),
        json_str_lit(b.created_at) + ("}"@ + t),
    );
    lemma_str_lit_determinism(a.created_at, b.created_at, "}"@ + r, "}"@ + t);
    lemma_prefix_cancel("}"@, r, t);
}

/// The attachment list rendering unfolds from the front as well.
#[verifier::rlimit(100)]
pub(crate) proof fn lemma_attachments_first(s: Seq<AttachmentView>)
    requires
        s.len() > 0,
    ensures
        s.len() == 1 ==> json_of_attachments(s) == json_of_attachment(s[0]),
        s.len() > 1 ==> json_of_attachments(s) == json_of_attachment(s[0]) + seq![',']
            + json_of_attachments(s.subrange(1, s.len() as int)),
    decreases s.len(),
{
    if s.len() == 1 {
        assert(s.drop_last() =~= Seq::<AttachmentView>::empty());
        assert(json_of_attachments(Seq::<AttachmentView>::empty()) == Seq::<char>::empty());
        assert(json_of_attachments(s) =~= json_of_attachment(s[0]));
    } else {
        let d = s.drop_last();
        let s1 = s.subrange(1, s.len() as int);
        lemma_attachments_first(d);
        lemma_attachments_first(s1);
        assert(d.subrange(1, d.len() as int) =~= s1.drop_last());
        assert(s1.last() == s.last());
        let hd = json_of_attachment(s[0]);
        let c = seq![','];
        if d.len() == 1 {
            assert(s1.len() == 1);
            assert(json_of_attachments(s) == (hd + c) + json_of_attachments(s1));
        } else {
            let mid = json_of_attachments(d.subrange(1, d.len() as int));
            let lst = json_of_attachment(s.last());
            lemma_assoc(hd + c, mid, c);
            lemma_assoc(hd + c, mid + c, lst);
            assert(json_of_attachments(s1) == (mid + c) + lst);
            assert(json_of_attachments(s) == (hd + c) + json_of_attachments(s1));
        }
    }
}


/// An attachment list rendering begins with the first object's brace.
#[verifier::rlimit(100)]
pub(crate) proof fn lemma_attachments_head(s: Seq<AttachmentView>)
    requires
        s.len() > 0,
    ensures
        json_of_attachments(s).len() >= 1,
        json_of_attachments(s)[0] == '{',
{
    lemma_attachments_first(s);
    lemma_attachment_head(s[0]);
    if s.len() > 1 {
        assert(json_of_attachments(s)[0] == json_of_attachment(s[0])[0]);
    }
}

/// Splitting the first object off a non-empty attachment list rendering.
#[verifier::rlimit(100)]
pub(crate) proof fn lemma_attachments_split(s: Seq<AttachmentView>, r: Seq<char>)
    requires
        s.len() > 0,
    ensures
        json_of_attachments(s) + r == json_of_attachment(s[0]) + (if s.len() == 1 {
            r
        } else {
            seq![','] + (json_of_attachments(s.subrange(1, s.len() as int)) + r)
        }),
{
    lemma_attachments_first(s);
    if s.len() > 1 {
        let s1 = s.subrange(1, s.len() as int);
        lemma_assoc(json_of_attachment(s[0]) + seq![','], json_of_attachments(s1), r);
        lemma_assoc(json_of_attachment(s[0]), seq![','], json_of_attachments(s1) + r);
    }
}

/// An attachment list rendering followed by a closing bracket determines
/// the list and the rest.
#[verifier::rlimit(100)]
#[verifier::spinoff_prover]
pub(crate) proof fn lemma_attachments_determinism(
    xa: Seq<AttachmentView>,
    xb: Seq<AttachmentView>,
    r: Seq<char>,
    t: Seq<char>,
)
    requires
        json_of_attachments(xa) + r == json_of_attachments(xb) + t,
        r.len() > 0,
        t.len() > 0,
        r[0] == ']',
        t[0] == ']',
    ensures
        xa == xb,
        r == t,
    decreases xa.len(),
{
    if xa.len() == 0 && xb.len() == 0 {
        assert(json_of_attachments(xa) == Seq::<char>::empty());
        assert(json_of_attachments(xb) == Seq::<char>::empty());
        lemma_prefix_cancel(Seq::<char>::empty(), r, t);
        assert(xa =~= xb);
    } else if xa.len() == 0 {
        assert(json_of_attachments(xa) == Seq::<char>::empty());
        lemma_attachments_head(xb);
        assert((json_of_attachments(xa) + r)[0] == r[0]);
        assert((json_of_attachments(xb) + t)[0] == json_of_attachments(xb)[0]);
        assert(false);
    } else if xb.len() == 0 {
        assert(json_of_attachments(xb) == Seq::<char>::empty());
        lemma_attachments_head(xa);
        assert((json_of_attachments(xb) + t)[0] == t[0]);
        assert((json_of_attachments(xa) + r)[0] == json_of_attachments(xa)[0]);
        assert(false);
    } else {
        let xa1 = xa.subrange(1, xa.len() as int);
        let xb1 = xb.subrange(1, xb.len() as int);
        let resta: Seq<char> = if xa.len() == 1 {
            r
        } else {
            seq![','] + (json_of_attachments(xa1) + r)
        };
        let restb: Seq<char> = if xb.len() == 1 {
            t
        } else {
            seq![','] + (json_of_attachments(xb1) + t)
        };
        lemma_attachments_split(xa, r);
        lemma_attachments_split(xb, t);
        lemma_attachment_determinism(xa[0], xb[0], resta, restb);
        if xa.len() == 1 && xb.len() == 1 {
            assert(xa =~= xb);
        } else if xa.len() == 1 {
            assert(resta[0] == ']' && restb[0] == ',');
            assert(false);
        } else if xb.len() == 1 {
            assert(restb[0] == ']' && resta[0] == ',');
            assert(false);
        } else {
            lemma_prefix_cancel(seq![','], json_of_attachments(xa1) + r, json_of_attachments(xb1) + t);
            lemma_attachments_determinism(xa1, xb1, r, t);
            assert(xa =~= seq![xa[0]] + xa1);
            assert(xb =~= seq![xb[0]] + xb1);
        }
    }
}

/// Appending a comma and one more object to a parsed attachment list.
#[verifier::rlimit(100)]
pub(crate) proof fn lemma_attachments_grow(
    s: Seq<char>,
    i: int,
    k: int,
    k2: int,
    k3: int,
    dv: Seq<AttachmentView>,
    a: AttachmentView,
)
    requires
        0 <= i <= k <= k2 <= k3 <= s.len(),
        dv.len() >= 1,
        s.subrange(i, k) == json_of_attachments(dv),
        s.subrange(k, k2) == seq![','],
        s.subrange(k2, k3) == json_of_attachment(a),
    ensures
        s.subrange(i, k3) == json_of_attachments(dv.push(a)),
{
    assert(dv.push(a).drop_last() =~= dv);
    assert(s.subrange(i, k3) =~= s.subrange(i, k) + s.subrange(k, k2) + s.subrange(k2, k3));
    assert(s.subrange(i, k3) =~= json_of_attachments(dv.push(a)));
}

/// Appending a comma and one more object to a parsed task list.
#[verifier::rlimit(100)]
pub(crate) proof fn lemma_tasks_grow(
    s: Seq<char>,
    i: int,
    k: int,
    k2: int,
    k3: int,
    dv: Seq<TaskView>,
    t: TaskView,
)
    requires
        0 <= i <= k <= k2 <= k3 <= s.len(),
        dv.len() >= 1,
        s.subrange(i, k) == json_items_of_tasks(dv),
        s.subrange(k, k2) == seq![','],
        s.subrange(k2, k3) == json_of_task(t),
    ensures
        s.subrange(i, k3) == json_items_of_tasks(dv.push(t)),
{
    assert(dv.push(t).drop_last() =~= dv);
    assert(s.subrange(i, k3) =~= s.subrange(i, k) + s.subrange(k, k2) + s.subrange(k2, k3));
    assert(s.subrange(i, k3) =~= json_items_of_tasks(dv.push(t)));
}

/// The settings flags split into their two pairs.
#[verifier::rlimit(100)]
pub(crate) proof fn lemma_settings_flag_halves(t: SettingsView)
    ensures
        json_of_settings_flags(t) == ((",\"notifications\":"@ + json_bool(t.notifications))
            + ",\"autoSave\":"@ + json_bool(t.auto_save)) + ((",\"isPinned\":"@ + json_bool(
            t.is_pinned,
        )) + ",\"isCollapsed\":"@ + json_bool(t.is_collapsed)),
{
    lemma_assoc((((",\"notifications\":"@ + json_bool(t.notifications)) + ",\"autoSave\":"@) + json_bool(t.auto_save)), ",\"isPinned\":"@, json_bool(t.is_pinned));
    lemma_assoc((((",\"notifications\":"@ + json_bool(t.notifications)) + ",\"autoSave\":"@) + json_bool(t.auto_save)), (",\"isPinned\":"@ + json_bool(t.is_pinned)), ",\"isCollapsed\":"@);
    lemma_assoc((((",\"notifications\":"@ + json_bool(t.notifications)) + ",\"autoSave\":"@) + json_bool(t.auto_save)), ((",\"isPinned\":"@ + json_bool(t.is_pinned)) + ",\"isCollapsed\":"@), json_bool(t.is_collapsed));
}

/// The settings scalars split into the theme part and the flags.
#[verifier::rlimit(100)]
pub(crate) proof fn lemma_settings_scalar_halves(t: SettingsView)
    ensures
        json_of_settings_scalars(t) == ("{\"theme\":"@ + json_str_lit(t.theme))
            + json_of_settings_flags(t),
{
    lemma_assoc(("{\"theme\":"@ + json_str_lit(t.theme)), ",\"notifications\":"@, json_bool(t.notifications));
    lemma_assoc(("{\"theme\":"@ + json_str_lit(t.theme)), (",\"notifications\":"@ + json_bool(t.notifications)), ",\"autoSave\":"@);
    lemma_assoc(("{\"theme\":"@ + json_str_lit(t.theme)), ((",\"notifications\":"@ + json_bool(t.notifications)) + ",\"autoSave\":"@), json_bool(t.auto_save));
    lemma_assoc(("{\"theme\":"@ + json_str_lit(t.theme)), (((",\"notifications\":"@ + json_bool(t.notifications)) + ",\"autoSave\":"@) + json_bool(t.auto_save)), ",\"isPinned\":"@);
    lemma_assoc(("{\"theme\":"@ + json_str_lit(t.theme)), ((((",\"notifications\":"@ + json_bool(t.notifications)) + ",\"autoSave\":"@) + json_bool(t.auto_save)) + ",\"isPinned\":"@), json_bool(t.is_pinned));
    lemma_assoc(("{\"theme\":"@ + json_str_lit(t.theme)), (((((",\"notifications\":"@ + json_bool(t.notifications)) + ",\"autoSave\":"@) + json_bool(t.auto_save)) + ",\"isPinned\":"@) + json_bool(t.is_pinned)), ",\"isCollapsed\":"@);
    lemma_assoc(("{\"theme\":"@ + json_str_lit(t.theme)), ((((((",\"notifications\":"@ + json_bool(t.notifications)) + ",\"autoSave\":"@) + json_bool(t.auto_save)) + ",\"isPinned\":"@) + json_bool(t.is_pinned)) + ",\"isCollapsed\":"@), json_bool(t.is_collapsed));
}

/// The scalar fields split into their two halves.
#[verifier::rlimit(100)]
pub(crate) proof fn lemma_task_fields_halves(t: TaskView)
    ensures
        json_of_task_fields(t) == json_of_task_front(t) + json_of_task_back(t),
{
    lemma_assoc(((((((("{\"id\":"@ + json_str_lit(t.id)) + ",\"title\":"@) + json_str_lit(t.title)) + ",\"description\":"@) + json_opt_str(t.description)) + ",\"completed\":"@) + json_bool(t.completed)), ",\"priority\":"@, json_str_lit(priority_label(t.priority)));
    lemma_assoc(((((((("{\"id\":"@ + json_str_lit(t.id)) + ",\"title\":"@) + json_str_lit(t.title)) + ",\"description\":"@) + json_opt_str(t.description)) + ",\"completed\":"@) + json_bool(t.completed)), (",\"priority\":"@ + json_str_lit(priority_label(t.priority))), ",\"due_date\":"@);
    lemma_assoc(((((((("{\"id\":"@ + json_str_lit(t.id)) + ",\"title\":"@) + json_str_lit(t.title)) + ",\"description\":"@) + json_opt_str(t.description)) + ",\"completed\":"@) + json_bool(t.completed)), ((",\"priority\":"@ + json_str_lit(priority_label(t.priority))) + ",\"due_date\":"@), json_opt_str(t.due_date));
    lemma_assoc(((((((("{\"id\":"@ + json_str_lit(t.id)) + ",\"title\":"@) + json_str_lit(t.title)) + ",\"description\":"@) + json_opt_str(t.description)) + ",\"completed\":"@) + json_bool(t.completed)), (((",\"priority\":"@ + json_str_lit(priority_label(t.priority))) + ",\"due_date\":"@) + json_opt_str(t.due_date)), ",\"created_at\":"@);
    lemma_assoc(((((((("{\"id\":"@ + json_str_lit(t.id)) + ",\"title\":"@) + json_str_lit(t.title)) + ",\"description\":"@) + json_opt_str(t.description)) + ",\"completed\":"@) + json_bool(t.completed)), ((((",\"priority\":"@ + json_str_lit(priority_label(t.priority))) + ",\"due_date\":"@) + json_opt_str(t.due_date)) + ",\"created_at\":"@), json_str_lit(t.created_at));
    lemma_assoc(((((((("{\"id\":"@ + json_str_lit(t.id)) + ",\"title\":"@) + json_str_lit(t.title)) + ",\"description\":"@) + json_opt_str(t.description)) + ",\"completed\":"@) + json_bool(t.completed)), (((((",\"priority\":"@ + json_str_lit(priority_label(t.priority))) + ",\"due_date\":"@) + json_opt_str(t.due_date)) + ",\"created_at\":"@) + json_str_lit(t.created_at)), ",\"updated_at\":"@);
    lemma_assoc(((((((("{\"id\":"@ + json_str_lit(t.id)) + ",\"title\":"@) + json_str_lit(t.title)) + ",\"description\":"@) + json_opt_str(t.description)) + ",\"completed\":"@) + json_bool(t.completed)), ((((((",\"priority\":"@ + json_str_lit(priority_label(t.priority))) + ",\"due_date\":"@) + json_opt_str(t.due_date)) + ",\"created_at\":"@) + json_str_lit(t.created_at)) + ",\"updated_at\":"@), json_str_lit(t.updated_at));
}

/// The priority labels are pairwise distinct.
pub(crate) proof fn lemma_priority_label_injective(p: Priority, q: Priority)
    requires
        priority_label(p) == priority_label(q),
    ensures
        p == q,
{
    reveal_strlit("high");
    reveal_strlit("medium");
    reveal_strlit("low");
    assert("high"@.len() == 4 && "medium"@.len() == 6 && "low"@.len() == 3);
}

/// The scalar fields of a task object and whatever follows determine those
/// fields and the rest.
#[verifier::rlimit(100)]
#[verifier::spinoff_prover]
pub(crate) proof fn lemma_task_fields_determinism(a: TaskView, b: TaskView, r: Seq<char>, t: Seq<char>)
    requires
        json_of_task_fields(a) + r == json_of_task_fields(b) + t,
    ensures
        a.id == b.id,
        a.title == b.title,
        a.description == b.description,
        a.completed == b.completed,
        a.priority == b.priority,
        a.due_date == b.due_date,
        a.created_at == b.created_at,
        a.updated_at == b.updated_at,
        r == t,
{
    let ra = json_str_lit(a.id) + (",\"title\":"@ + (json_str_lit(a.title) + (",\"description\":"@
        + (json_opt_str(a.description) + (",\"completed\":"@ + (json_bool(a.completed) + (
    ",\"priority\":"@ + (json_str_lit(priority_label(a.priority)) + (",\"due_date\":"@ + (
    json_opt_str(a.due_date) + (",\"created_at\":"@ + (json_str_lit(a.created_at) + (
    ",\"updated_at\":"@ + (json_str_lit(a.updated_at) + r))))))))))))));
    let rb = json_str_lit(b.id) + (",\"title\":"@ + (json_str_lit(b.title) + (",\"description\":"@
        + (json_opt_str(b.description) + (",\"completed\":"@ + (json_bool(b.completed) + (
    ",\"priority\":"@ + (json_str_lit(priority_label(b.priority)) + (",\"due_date\":"@ + (
    json_opt_str(b.due_date) + (",\"created_at\":"@ + (json_str_lit(b.created_at) + (
    ",\"updated_at\":"@ + (json_str_lit(b.updated_at) + t))))))))))))));
    lemma_chain17(
        "{\"id\":"@,
        json_str_lit(a.id),
        ",\"title\":"@,
        json_str_lit(a.title),
        ",\"description\":"@,
        json_opt_str(a.description),
        ",\"completed\":"@,
        json_bool(a.completed),
        ",\"priority\":"@,
        json_str_lit(priority_label(a.priority)),
        ",\"due_date\":"@,
        json_opt_str(a.due_date),
        ",\"created_at\":"@,
        json_str_lit(a.created_at),
        ",\"updated_at\":"@,
        json_str_lit(a.updated_at),
        r,
    );
    lemma_chain17(
        "{\"id\":"@,
        json_str_lit(b.id),
        ",\"title\":"@,
        json_str_lit(b.title),
        ",\"description\":"@,
        json_opt_str(b.description),
        ",\"completed\":"@,
        json_bool(b.completed),
        ",\"priority\":"@,
        json_str_lit(priority_label(b.priority)),
        ",\"due_date\":"@,
        json_opt_str(b.due_date),
        ",\"created_at\":"@,
        json_str_lit(b.created_at),
        ",\"updated_at\":"@,
        json_str_lit(b.updated_at),
        t,
    );
    assert(json_of_task_fields(a) + r == "{\"id\":"@ + ra);
    assert(json_of_task_fields(b) + t == "{\"id\":"@ + rb);
    lemma_prefix_cancel("{\"id\":"@, ra, rb);
    let ra1 = json_str_lit(a.title) + (",\"description\":"@ + (json_opt_str(a.description) + (
    ",\"completed\":"@ + (json_bool(a.completed) + (",\"priority\":"@ + (json_str_lit(
        priority_label(a.priority),
    ) + (",\"due_date\":"@ + (json_opt_str(a.due_date) + (",\"created_at\":"@ + (json_str_lit(
        a.created_at,
    ) + (",\"updated_at\":"@ + (json_str_lit(a.updated_at) + r))))))))))));
    let rb1 = json_str_lit(b.title) + (",\"description\":"@ + (json_opt_str(b.description) + (
    ",\"completed\":"@ + (json_bool(b.completed) + (",\"priority\":"@ + (json_str_lit(
        priority_label(b.priority),
    ) + (",\"due_date\":"@ + (json_opt_str(b.due_date) + (",\"created_at\":"@ + (json_str_lit(
        b.created_at,
    ) + (",\"updated_at\":"@ + (json_str_lit(b.updated_at) + t))))))))))));
    lemma_str_lit_determinism(a.id, b.id, ",\"title\":"@ + ra1, ",\"title\":"@ + rb1);
    lemma_prefix_cancel(",\"title\":"@, ra1, rb1);
    let ra2 = json_opt_str(a.description) + (",\"completed\":"@ + (json_bool(a.completed) + (
    ",\"priority\":"@ + (json_str_lit(priority_label(a.priority)) + (",\"due_date\":"@ + (
    json_opt_str(a.due_date) + (",\"created_at\":"@ + (json_str_lit(a.created_at) + (
    ",\"updated_at\":"@ + (json_str_lit(a.updated_at) + r))))))))));
    let rb2 = json_opt_str(b.description) + (",\"completed\":"@ + (json_bool(b.completed) + (
    ",\"priority\":"@ + (json_str_lit(priority_label(b.priority)) + (",\"due_date\":"@ + (
    json_opt_str(b.due_date) + (",\"created_at\":"@ + (json_str_lit(b.created_at) + (
    ",\"updated_at\":"@ + (json_str_lit(b.updated_at) + t))))))))));
    lemma_str_lit_determinism(a.title, b.title, ",\"description\":"@ + ra2, ",\"description\":"@ + rb2);
    lemma_prefix_cancel(",\"description\":"@, ra2, rb2);
    let ra3 = json_bool(a.completed) + (",\"priority\":"@ + (json_str_lit(
        priority_label(a.priority),
    ) + (",\"due_date\":"@ + (json_opt_str(a.due_date) + (",\"created_at\":"@ + (json_str_lit(
        a.created_at,
    ) + (",\"updated_at\":"@ + (json_str_lit(a.updated_at) + r))))))));
    let rb3 = json_bool(b.completed) + (",\"priority\":"@ + (json_str_lit(
        priority_label(b.priority),
    ) + (",\"due_date\":"@ + (json_opt_str(b.due_date) + (",\"created_at\":"@ + (json_str_lit(
        b.created_at,
    ) + (",\"updated_at\":"@ + (json_str_lit(b.updated_at) + t))))))));
    lemma_opt_str_determinism(
        a.description,
        b.description,
        ",\"completed\":"@ + ra3,
        ",\"completed\":"@ + rb3,
    );
    lemma_prefix_cancel(",\"completed\":"@, ra3, rb3);
    let ra4 = json_str_lit(priority_label(a.priority)) + (",\"due_date\":"@ + (json_opt_str(
        a.due_date,
    ) + (",\"created_at\":"@ + (json_str_lit(a.created_at) + (",\"updated_at\":"@ + (json_str_lit(
        a.updated_at,
    ) + r))))));
    let rb4 = json_str_lit(priority_label(b.priority)) + (",\"due_date\":"@ + (json_opt_str(
        b.due_date,
    ) + (",\"created_at\":"@ + (json_str_lit(b.created_at) + (",\"updated_at\":"@ + (json_str_lit(
        b.updated_at,
    ) + t))))));
    lemma_bool_determinism(a.completed, b.completed, ",\"priority\":"@ + ra4, ",\"priority\":"@ + rb4);
    lemma_prefix_cancel(",\"priority\":"@, ra4, rb4);
    let ra5 = json_opt_str(a.due_date) + (",\"created_at\":"@ + (json_str_lit(a.created_at) + (
    ",\"updated_at\":"@ + (json_str_lit(a.updated_at) + r))));
    let rb5 = json_opt_str(b.due_date) + (",\"created_at\":"@ + (json_str_lit(b.created_at) + (
    ",\"updated_at\":"@ + (json_str_lit(b.updated_at) + t))));
    lemma_str_lit_determinism(
        priority_label(a.priority),
        priority_label(b.priority),
        ",\"due_date\":"@ + ra5,
        ",\"due_date\":"@ + rb5,
    );
    lemma_priority_label_injective(a.priority, b.priority);
    lemma_prefix_cancel(",\"due_date\":"@, ra5, rb5);
    let ra6 = json_str_lit(a.created_at) + (",\"updated_at\":"@ + (json_str_lit(a.updated_at) + r));
    let rb6 = json_str_lit(b.created_at) + (",\"updated_at\":"@ + (json_str_lit(b.updated_at) + t));
    lemma_opt_str_determinism(a.due_date, b.due_date, ",\"created_at\":"@ + ra6, ",\"created_at\":"@ + rb6);
    lemma_prefix_cancel(",\"created_at\":"@, ra6, rb6);
    lemma_str_lit_determinism(
        a.created_at,
        b.created_at,
        ",\"updated_at\":"@ + (json_str_lit(a.updated_at) + r),
        ",\"updated_at\":"@ + (json_str_lit(b.updated_at) + t),
    );
    lemma_prefix_cancel(
        ",\"updated_at\":"@,
        json_str_lit(a.updated_at) + r,
        json_str_lit(b.updated_at) + t,
    );
    lemma_str_lit_determinism(a.updated_at, b.updated_at, r, t);
}

/// A task object begins with an opening brace.
pub(crate) proof fn lemma_task_head(v: TaskView)
    ensures
        json_of_task(v).len() >= 1,
        json_of_task(v)[0] == '{',
{
    reveal_strlit("{\"id\":");
    assert(json_of_task_fields(v)[0] == "{\"id\":"@[0]);
    assert(json_of_task(v)[0] == json_of_task_fields(v)[0]);
}

/// A task object and whatever follows determine the task and the rest.
#[verifier::rlimit(100)]
#[verifier::spinoff_prover]
pub(crate) proof fn lemma_task_determinism(a: TaskView, b: TaskView, r: Seq<char>, t: Seq<char>)
    requires
        json_of_task(a) + r == json_of_task(b) + t,
    ensures
        a == b,
        r == t,
{
    reveal_strlit("}");
    reveal_strlit("]");
    reveal_strlit(",\"attachments\":[");
    let atta: Seq<char> = match a.attachments {
        None => Seq::<char>::empty(),
        Some(aa) => ",\"attachments\":["@ + json_of_attachments(aa) + "]"@,
    };
    let attb: Seq<char> = match b.attachments {
        None => Seq::<char>::empty(),
        Some(bb) => ",\"attachments\":["@ + json_of_attachments(bb) + "]"@,
    };
    let resta = atta + ("}"@ + r);
    let restb = attb + ("}"@ + t);
    lemma_assoc(json_of_task_fields(a) + atta, "}"@, r);
    lemma_assoc(json_of_task_fields(a), atta, "}"@ + r);
    lemma_assoc(json_of_task_fields(b) + attb, "}"@, t);
    lemma_assoc(json_of_task_fields(b), attb, "}"@ + t);
    assert(json_of_task(a) + r == json_of_task_fields(a) + resta);
    assert(json_of_task(b) + t == json_of_task_fields(b) + restb);
    lemma_task_fields_determinism(a, b, resta, restb);
    match (a.attachments, b.attachments) {
        (None, None) => {
            lemma_prefix_cancel("}"@, r, t);
        },
        (None, Some(bb)) => {
            assert(resta[0] == '}');
            lemma_assoc(",\"attachments\":["@ + json_of_attachments(bb), "]"@, "}"@ + t);
            lemma_assoc(",\"attachments\":["@, json_of_attachments(bb), "]"@ + ("}"@ + t));
            assert(restb == ",\"attachments\":["@ + (json_of_attachments(bb) + ("]"@ + ("}"@
                + t))));
            assert(restb[0] == ',');
            assert(false);
        },
        (Some(aa), None) => {
            assert(restb[0] == '}');
            lemma_assoc(",\"attachments\":["@ + json_of_attachments(aa), "]"@, "}"@ + r);
            lemma_assoc(",\"attachments\":["@, json_of_attachments(aa), "]"@ + ("}"@ + r));
            assert(resta == ",\"attachments\":["@ + (json_of_attachments(aa) + ("]"@ + ("}"@
                + r))));
            assert(resta[0] == ',');
            assert(false);
        },
        (Some(aa), Some(bb)) => {
            lemma_assoc(",\"attachments\":["@ + json_of_attachments(aa), "]"@, "}"@ + r);
            lemma_assoc(",\"attachments\":["@, json_of_attachments(aa), "]"@ + ("}"@ + r));
            lemma_assoc(",\"attachments\":["@ + json_of_attachments(bb), "]"@, "}"@ + t);
            lemma_assoc(",\"attachments\":["@, json_of_attachments(bb), "]"@ + ("}"@ + t));
            assert(resta == ",\"attachments\":["@ + (json_of_attachments(aa) + ("]"@ + ("}"@
                + r))));
            assert(restb == ",\"attachments\":["@ + (json_of_attachments(bb) + ("]"@ + ("}"@
                + t))));
            lemma_prefix_cancel(
                ",\"attachments\":["@,
                json_of_attachments(aa) + ("]"@ + ("}"@ + r)),
                json_of_attachments(bb) + ("]"@ + ("}"@ + t)),
            );
            assert(("]"@ + ("}"@ + r))[0] == ']');
            assert(("]"@ + ("}"@ + t))[0] == ']');
            lemma_attachments_determinism(aa, bb, "]"@ + ("}"@ + r), "]"@ + ("}"@ + t));
            lemma_prefix_cancel("]"@, "}"@ + r, "}"@ + t);
            lemma_prefix_cancel("}"@, r, t);
        },
    }
}

/// The task list rendering unfolds from the front as well.
#[verifier::rlimit(100)]
pub(crate) proof fn lemma_tasks_items_first(s: Seq<TaskView>)
    requires
        s.len() > 0,
    ensures
        s.len() == 1 ==> json_items_of_tasks(s) == json_of_task(s[0]),
        s.len() > 1 ==> json_items_of_tasks(s) == json_of_task(s[0]) + seq![',']
            + json_items_of_tasks(s.subrange(1, s.len() as int)),
    decreases s.len(),
{
    if s.len() == 1 {
        assert(s.drop_last() =~= Seq::<TaskView>::empty());
        assert(json_items_of_tasks(Seq::<TaskView>::empty()) == Seq::<char>::empty());
        assert(json_items_of_tasks(s) =~= json_of_task(s[0]));
    } else {
        let d = s.drop_last();
        let s1 = s.subrange(1, s.len() as int);
        lemma_tasks_items_first(d);
        lemma_tasks_items_first(s1);
        assert(d.subrange(1, d.len() as int) =~= s1.drop_last());
        assert(s1.last() == s.last());
        let hd = json_of_task(s[0]);
        let c = seq![','];
        if d.len() == 1 {
            assert(s1.len() == 1);
            assert(json_items_of_tasks(s) == (hd + c) + json_items_of_tasks(s1));
        } else {
            let mid = json_items_of_tasks(d.subrange(1, d.len() as int));
            let lst = json_of_task(s.last());
            lemma_assoc(hd + c, mid, c);
            lemma_assoc(hd + c, mid + c, lst);
            assert(json_items_of_tasks(s1) == (mid + c) + lst);
            assert(json_items_of_tasks(s) == (hd + c) + json_items_of_tasks(s1));
        }
    }
}


/// A task list rendering begins with the first object's brace.
#[verifier::rlimit(100)]
pub(crate) proof fn lemma_tasks_items_head(s: Seq<TaskView>)
    requires
        s.len() > 0,
    ensures
        json_items_of_tasks(s).len() >= 1,
        json_items_of_tasks(s)[0] == '{',
{
    lemma_tasks_items_first(s);
    lemma_task_head(s[0]);
    if s.len() > 1 {
        assert(json_items_of_tasks(s)[0] == json_of_task(s[0])[0]);
    }
}

/// Splitting the first object off a non-empty task list rendering.
#[verifier::rlimit(100)]
pub(crate) proof fn lemma_tasks_items_split(s: Seq<TaskView>, r: Seq<char>)
    requires
        s.len() > 0,
    ensures
        json_items_of_tasks(s) + r == json_of_task(s[0]) + (if s.len() == 1 {
            r
        } else {
            seq![','] + (json_items_of_tasks(s.subrange(1, s.len() as int)) + r)
        }),
{
    lemma_tasks_items_first(s);
    if s.len() > 1 {
        let s1 = s.subrange(1, s.len() as int);
        lemma_assoc(json_of_task(s[0]) + seq![','], json_items_of_tasks(s1), r);
        lemma_assoc(json_of_task(s[0]), seq![','], json_items_of_tasks(s1) + r);
    }
}

/// A task list rendering followed by a closing bracket determines the list
/// and the rest.
#[verifier::rlimit(100)]
#[verifier::spinoff_prover]
pub(crate) proof fn lemma_tasks_items_determinism(
    xa: Seq<TaskView>,
    xb: Seq<TaskView>,
    r: Seq<char>,
    t: Seq<char>,
)
    requires
        json_items_of_tasks(xa) + r == json_items_of_tasks(xb) + t,
        r.len() > 0,
        t.len() > 0,
        r[0] == ']',
        t[0] == ']',
    ensures
        xa == xb,
        r == t,
    decreases xa.len(),
{
    if xa.len() == 0 && xb.len() == 0 {
        assert(json_items_of_tasks(xa) == Seq::<char>::empty());
        assert(json_items_of_tasks(xb) == Seq::<char>::empty());
        lemma_prefix_cancel(Seq::<char>::empty(), r, t);
        assert(xa =~= xb);
    } else if xa.len() == 0 {
        assert(json_items_of_tasks(xa) == Seq::<char>::empty());
        lemma_tasks_items_head(xb);
        assert((json_items_of_tasks(xa) + r)[0] == r[0]);
        assert((json_items_of_tasks(xb) + t)[0] == json_items_of_tasks(xb)[0]);
        assert(false);
    } else if xb.len() == 0 {
        assert(json_items_of_tasks(xb) == Seq::<char>::empty());
        lemma_tasks_items_head(xa);
        assert((json_items_of_tasks(xb) + t)[0] == t[0]);
        assert((json_items_of_tasks(xa) + r)[0] == json_items_of_tasks(xa)[0]);
        assert(false);
    } else {
        let xa1 = xa.subrange(1, xa.len() as int);
        let xb1 = xb.subrange(1, xb.len() as int);
        let resta: Seq<char> = if xa.len() == 1 {
            r
        } else {
            seq![','] + (json_items_of_tasks(xa1) + r)
        };
        let restb: Seq<char> = if xb.len() == 1 {
            t
        } else {
            seq![','] + (json_items_of_tasks(xb1) + t)
        };
        lemma_tasks_items_split(xa, r);
        lemma_tasks_items_split(xb, t);
        lemma_task_determinism(xa[0], xb[0], resta, restb);
        if xa.len() == 1 && xb.len() == 1 {
            assert(xa =~= xb);
        } else if xa.len() == 1 {
            assert(resta[0] == ']' && restb[0] == ',');
            assert(false);
        } else if xb.len() == 1 {
            assert(restb[0] == ']' && resta[0] == ',');
            assert(false);
        } else {
            lemma_prefix_cancel(
                seq![','],
                json_items_of_tasks(xa1) + r,
                json_items_of_tasks(xb1) + t,
            );
            lemma_tasks_items_determinism(xa1, xb1, r, t);
            assert(xa =~= seq![xa[0]] + xa1);
            assert(xb =~= seq![xb[0]] + xb1);
        }
    }
}

/// The document text determines the collection: two task collections with
/// the same rendering are equal, field for field. Together with the
/// reader's soundness this pins the save/load round trip — a reader that
/// accepts the saved text can only return the collection that was saved.
pub proof fn lemma_tasks_document_injective(a: Seq<TaskView>, b: Seq<TaskView>)
    requires
        json_of_tasks(a) == json_of_tasks(b),
    ensures
        a == b,
{
    lemma_assoc(seq!['['], json_items_of_tasks(a), seq![']']);
    lemma_assoc(seq!['['], json_items_of_tasks(b), seq![']']);
    assert(json_of_tasks(a) == seq!['['] + (json_items_of_tasks(a) + seq![']']));
    assert(json_of_tasks(b) == seq!['['] + (json_items_of_tasks(b) + seq![']']));
    lemma_prefix_cancel(
        seq!['['],
        json_items_of_tasks(a) + seq![']'],
        json_items_of_tasks(b) + seq![']'],
    );
    lemma_tasks_items_determinism(a, b, seq![']'], seq![']']);
}

} // verus!
