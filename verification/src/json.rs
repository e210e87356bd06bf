use vstd::prelude::*;

use crate::text::{dec_digits, digit_char, int_digits, push_int_digits};

verus! {

/// A JSON document in the subset this library speaks: null, booleans,
/// integers in the signed 64-bit range, strings, arrays and objects.
/// Floating-point numbers lie outside the subset; frames and credential
/// records never carry them.
pub enum JsonValue {
    Null,
    Bool(bool),
    Int(i64),
    Str(Vec<char>),
    Arr(Vec<JsonValue>),
    Obj(Vec<(Vec<char>, JsonValue)>),
}

/// The mathematical shape of a document: what contracts speak about.
pub enum JsonSpec {
    Null,
    Bool(bool),
    Int(int),
    Str(Seq<char>),
    Arr(Seq<JsonSpec>),
    Obj(Seq<(Seq<char>, JsonSpec)>),
}

/// The shape of `v`.
pub open spec fn jv_view(v: JsonValue) -> JsonSpec
    decreases v, 0int,
{
    match v {
        JsonValue::Null => JsonSpec::Null,
        JsonValue::Bool(b) => JsonSpec::Bool(b),
        JsonValue::Int(i) => JsonSpec::Int(i as int),
        JsonValue::Str(s) => JsonSpec::Str(s@),
        JsonValue::Arr(a) => JsonSpec::Arr(jv_views(a@)),
        JsonValue::Obj(m) => JsonSpec::Obj(jm_views(m@)),
    }
}

/// The shapes of the elements of `a`, in order.
pub open spec fn jv_views(a: Seq<JsonValue>) -> Seq<JsonSpec>
    decreases a, 1int,
{
    if a.len() == 0 {
        Seq::empty()
    } else {
        jv_views(a.drop_last()).push(jv_view(a.last()))
    }
}

/// The shapes of the members of `m`, in order.
pub open spec fn jm_views(m: Seq<(Vec<char>, JsonValue)>) -> Seq<(Seq<char>, JsonSpec)>
    decreases m, 1int,
{
    if m.len() == 0 {
        Seq::empty()
    } else {
        jm_views(m.drop_last()).push((m.last().0@, jv_view(m.last().1)))
    }
}

pub proof fn lemma_jv_views_len(a: Seq<JsonValue>)
    ensures
        jv_views(a).len() == a.len(),
        forall|i: int| 0 <= i < a.len() ==> jv_views(a)[i] == jv_view(a[i]),
    decreases a.len(),
{
    if a.len() > 0 {
        lemma_jv_views_len(a.drop_last());
    }
}

pub proof fn lemma_jm_views_len(m: Seq<(Vec<char>, JsonValue)>)
    ensures
        jm_views(m).len() == m.len(),
        forall|i: int|
            0 <= i < m.len() ==> jm_views(m)[i] == (m[i].0@, jv_view(m[i].1)),
    decreases m.len(),
{
    if m.len() > 0 {
        lemma_jm_views_len(m.drop_last());
    }
}

/// The hexadecimal digit `d` (below sixteen), lower case.
pub open spec fn hex_char(d: int) -> char {
    if d < 10 {
        digit_char(d as nat)
    } else {
        ((87 + d) as u8) as char
    }
}

/// How one character appears inside a JSON string: quotes and backslashes
/// are escaped, control characters take the `\u00XX` form, everything else
/// stands as itself.
pub open spec fn esc_char(c: char) -> Seq<char> {
    if c == '"' {
        seq!['\\', '"']
    } else if c == '\\' {
        seq!['\\', '\\']
    } else if (c as int) < 32 {
        seq!['\\', 'u', '0', '0', hex_char(c as int / 16), hex_char(c as int % 16)]
    } else {
        seq![c]
    }
}

/// The escaped body of a JSON string with content `s`.
pub open spec fn esc_str(s: Seq<char>) -> Seq<char>
    decreases s.len(),
{
    if s.len() == 0 {
        Seq::empty()
    } else {
        esc_str(s.drop_last()) + esc_char(s.last())
    }
}

/// The canonical text of a document: no whitespace, members and elements in
/// order.
pub open spec fn jtext(v: JsonSpec) -> Seq<char>
    decreases v, 0int,
{
    match v {
        JsonSpec::Null => "null"@,
        JsonSpec::Bool(b) => if b {
            "true"@
        } else {
            "false"@
        },
        JsonSpec::Int(i) => int_digits(i),
        JsonSpec::Str(s) => seq!['"'] + esc_str(s) + seq!['"'],
        JsonSpec::Arr(a) => seq!['['] + jtext_arr(a) + seq![']'],
        JsonSpec::Obj(m) => seq!['{'] + jtext_obj(m) + seq!['}'],
    }
}

/// The comma-separated texts of the elements of `a`.
pub open spec fn jtext_arr(a: Seq<JsonSpec>) -> Seq<char>
    decreases a, 1int,
{
    if a.len() == 0 {
        Seq::empty()
    } else if a.len() == 1 {
        jtext(a[0])
    } else {
        jtext_arr(a.drop_last()) + seq![','] + jtext(a.last())
    }
}

/// The text of one member: quoted key, colon, value.
pub open spec fn jtext_member(k: Seq<char>, v: JsonSpec) -> Seq<char>
    decreases v,
{
    seq!['"'] + esc_str(k) + seq!['"', ':'] + jtext(v)
}

/// The comma-separated texts of the members of `m`.
pub open spec fn jtext_obj(m: Seq<(Seq<char>, JsonSpec)>) -> Seq<char>
    decreases m, 1int,
{
    if m.len() == 0 {
        Seq::empty()
    } else if m.len() == 1 {
        jtext_member(m[0].0, m[0].1)
    } else {
        jtext_obj(m.drop_last()) + seq![','] + jtext_member(m.last().0, m.last().1)
    }
}

fn hex_char_exec(d: u32) -> (c: char)
    requires
        d < 16,
    ensures
        c == hex_char(d as int),
{
    if d < 10 {
        (48 + d as u8) as char
    } else {
        (87 + d as u8) as char
    }
}

/// Appends the escaped form of `c` to `out`.
fn push_esc_char(c: char, out: &mut Vec<char>)
    ensures
        final(out)@ == old(out)@ + esc_char(c),
{
    if c == '"' {
        out.push('\\');
        out.push('"');
    } else if c == '\\' {
        out.push('\\');
        out.push('\\');
    } else if (c as u32) < 32 {
        out.push('\\');
        out.push('u');
        out.push('0');
        out.push('0');
        let n = c as u32;
        out.push(hex_char_exec(n / 16));
        out.push(hex_char_exec(n % 16));
        proof {
            assert(final(out)@ =~= old(out)@ + esc_char(c));
        }
    } else {
        out.push(c);
        proof {
            assert(final(out)@ =~= old(out)@ + esc_char(c));
        }
    }
}

/// Appends the escaped body of `s` to `out`.
fn push_esc_str(s: &Vec<char>, out: &mut Vec<char>)
    ensures
        final(out)@ == old(out)@ + esc_str(s@),
{
    let mut i: usize = 0;
    while i < s.len()
        invariant
            i <= s.len(),
            out@ == old(out)@ + esc_str(s@.take(i as int)),
        decreases s.len() - i,
    {
        push_esc_char(s[i], out);
        proof {
            assert(s@.take(i as int + 1).drop_last() =~= s@.take(i as int));
            assert(s@.take(i as int + 1).last() == s@[i as int]);
            assert(out@ =~= old(out)@ + esc_str(s@.take(i as int + 1)));
        }
        i += 1;
    }
    proof {
        assert(s@.take(s.len() as int) =~= s@);
    }
}

/// Appends the canonical text of `v` to `out`.
#[verifier::loop_isolation(false)]
#[verifier::rlimit(60)]
pub fn write_json(v: &JsonValue, out: &mut Vec<char>)
    ensures
        final(out)@ == old(out)@ + jtext(jv_view(*v)),
    decreases *v,
{
    match v {
        JsonValue::Null => {
            out.push('n');
            out.push('u');
            out.push('l');
            out.push('l');
            proof {
                reveal_strlit("null");
                assert(out@ =~= old(out)@ + "null"@);
            }
        },
        JsonValue::Bool(b) => {
            if *b {
                out.push('t');
                out.push('r');
                out.push('u');
                out.push('e');
                proof {
                    reveal_strlit("true");
                    assert(out@ =~= old(out)@ + "true"@);
                }
            } else {
                out.push('f');
                out.push('a');
                out.push('l');
                out.push('s');
                out.push('e');
                proof {
                    reveal_strlit("false");
                    assert(out@ =~= old(out)@ + "false"@);
                }
            }
        },
        JsonValue::Int(i) => {
            push_int_digits(*i, out);
        },
        JsonValue::Str(s) => {
            out.push('"');
            push_esc_str(s, out);
            out.push('"');
            proof {
                assert(out@ =~= old(out)@ + (seq!['"'] + esc_str(s@) + seq!['"']));
            }
        },
        JsonValue::Arr(a) => {
            out.push('[');
            let mut i: usize = 0;
            while i < a.len()
                invariant
                    i <= a.len(),
                    out@ == old(out)@ + seq!['['] + jtext_arr(jv_views(a@).take(i as int)),
                decreases a.len() - i,
            {
                if i > 0 {
                    out.push(',');
                }
                write_json(&a[i], out);
                proof {
                    lemma_jv_views_len(a@);
                    let vs = jv_views(a@);
                    assert(vs.take(i as int + 1).drop_last() =~= vs.take(i as int));
                    assert(vs.take(i as int + 1).last() == vs[i as int]);
                    assert(vs.take(i as int + 1)[0] == vs[0]);
                    assert(out@ =~= old(out)@ + seq!['['] + jtext_arr(vs.take(i as int + 1)));
                }
                i += 1;
            }
            out.push(']');
            proof {
                assert(jv_views(a@).take(a.len() as int) =~= jv_views(a@)) by {
                    lemma_jv_views_len(a@);
                }
                assert(out@ =~= old(out)@ + (seq!['['] + jtext_arr(jv_views(a@)) + seq![']']));
            }
        },
        JsonValue::Obj(m) => {
            out.push('{');
            let mut i: usize = 0;
            while i < m.len()
                invariant
                    i <= m.len(),
                    out@ == old(out)@ + seq!['{'] + jtext_obj(jm_views(m@).take(i as int)),
                decreases m.len() - i,
            {
                if i > 0 {
                    out.push(',');
                }
                out.push('"');
                push_esc_str(&m[i].0, out);
                out.push('"');
                out.push(':');
                write_json(&m[i].1, out);
                proof {
                    lemma_jm_views_len(m@);
                    let vs = jm_views(m@);
                    let ii = i as int;
                    assert(vs.take(ii + 1).drop_last() =~= vs.take(ii));
                    assert(vs.take(ii + 1).last() == vs[ii]);
                    assert(vs.take(ii + 1)[0] == vs[0]);
                    assert(vs[ii] == (m@[ii].0@, jv_view(m@[ii].1)));
                    assert(jtext_member(vs[ii].0, vs[ii].1) =~= seq!['"'] + esc_str(m@[ii].0@)
                        + seq!['"', ':'] + jtext(jv_view(m@[ii].1)));
                    if ii == 0 {
                        assert(jtext_obj(vs.take(1)) == jtext_member(
                            vs.take(1)[0].0,
                            vs.take(1)[0].1,
                        ));
                    } else {
                        assert(jtext_obj(vs.take(ii + 1)) == jtext_obj(vs.take(ii)) + seq![',']
                            + jtext_member(vs[ii].0, vs[ii].1));
                    }
                    assert(out@ =~= old(out)@ + seq!['{'] + jtext_obj(vs.take(ii + 1)));
                }
                i += 1;
            }
            out.push('}');
            proof {
                assert(jm_views(m@).take(m.len() as int) =~= jm_views(m@)) by {
                    lemma_jm_views_len(m@);
                }
                assert(out@ =~= old(out)@ + (seq!['{'] + jtext_obj(jm_views(m@)) + seq!['}']));
            }
        },
    }
}

/// The canonical text of `v` as a string.
pub fn json_to_string(v: &JsonValue) -> (r: String)
    ensures
        r@ == jtext(jv_view(*v)),
{
    let mut out: Vec<char> = Vec::new();
    write_json(v, &mut out);
    crate::text::chars_to_string(&out)
}

} // verus!

verus! {

/// JSON whitespace.
pub open spec fn is_ws(c: char) -> bool {
    c == ' ' || c == '\t' || c == '\n' || c == '\r'
}

/// A decimal digit character.
pub open spec fn is_digit(c: char) -> bool {
    48 <= c as int <= 57
}

/// The value of a hexadecimal digit character, or -1.
pub open spec fn hex_val(c: char) -> int {
    if 48 <= c as int <= 57 {
        c as int - 48
    } else if 97 <= c as int <= 102 {
        c as int - 87
    } else if 65 <= c as int <= 70 {
        c as int - 55
    } else {
        -1
    }
}

/// What a single-character escape stands for.
pub open spec fn esc_map(e: char) -> Option<char> {
    if e == '"' {
        Some('"')
    } else if e == '\\' {
        Some('\\')
    } else if e == '/' {
        Some('/')
    } else if e == 'n' {
        Some('\n')
    } else if e == 'r' {
        Some('\r')
    } else if e == 't' {
        Some('\t')
    } else if e == 'b' {
        Some('\u{8}')
    } else if e == 'f' {
        Some('\u{c}')
    } else {
        None
    }
}

/// The first position at or after `i` that holds no whitespace.
pub open spec fn sp_ws(s: Seq<char>, i: int) -> int
    decreases s.len() - i,
{
    if i < s.len() && is_ws(s[i]) {
        sp_ws(s, i + 1)
    } else {
        i
    }
}

/// The end of the run of digit characters starting at `i`.
pub open spec fn sp_digits_end(s: Seq<char>, i: int) -> int
    decreases s.len() - i,
{
    if i < s.len() && is_digit(s[i]) {
        sp_digits_end(s, i + 1)
    } else {
        i
    }
}

/// Reads a string body starting at `i` (just after the opening quote):
/// the content after unescaping, and the position after the closing quote.
/// Escapes cover the single-character forms and `\u00XX` below 128; raw
/// control characters are refused.
pub open spec fn sp_str_chars(s: Seq<char>, i: int) -> Option<(Seq<char>, int)>
    decreases s.len() - i,
{
    if i >= s.len() {
        None
    } else {
        let c = s[i];
        if c == '"' {
            Some((Seq::empty(), i + 1))
        } else if c == '\\' {
            if i + 1 >= s.len() {
                None
            } else {
                let e = s[i + 1];
                if e == 'u' {
                    if i + 6 > s.len() {
                        None
                    } else {
                        let v = hex_val(s[i + 2]) * 4096 + hex_val(s[i + 3]) * 256 + hex_val(
                            s[i + 4],
                        ) * 16 + hex_val(s[i + 5]);
                        if hex_val(s[i + 2]) < 0 || hex_val(s[i + 3]) < 0 || hex_val(s[i + 4]) < 0
                            || hex_val(s[i + 5]) < 0 || v >= 128 {
                            None
                        } else {
                            match sp_str_chars(s, i + 6) {
                                Some((t, n)) => Some((seq![(v as u8) as char] + t, n)),
                                None => None,
                            }
                        }
                    }
                } else {
                    match esc_map(e) {
                        Some(mc) => match sp_str_chars(s, i + 2) {
                            Some((t, n)) => Some((seq![mc] + t, n)),
                            None => None,
                        },
                        None => None,
                    }
                }
            }
        } else if (c as int) < 32 {
            None
        } else {
            match sp_str_chars(s, i + 1) {
                Some((t, n)) => Some((seq![c] + t, n)),
                None => None,
            }
        }
    }
}

/// Reads an integer starting at `i`: an optional minus sign and at least
/// one digit, refused when the value leaves the signed 64-bit range.
pub open spec fn sp_int(s: Seq<char>, i: int) -> Option<(int, int)> {
    if i < s.len() && s[i] == '-' {
        let e = sp_digits_end(s, i + 1);
        if e > i + 1 {
            let v = crate::text::dec_val(s.subrange(i + 1, e));
            if v <= 0x8000_0000_0000_0000 {
                Some((-v, e))
            } else {
                None
            }
        } else {
            None
        }
    } else {
        let e = sp_digits_end(s, i);
        if e > i {
            let v = crate::text::dec_val(s.subrange(i, e));
            if v <= 0x7fff_ffff_ffff_ffff {
                Some((v, e))
            } else {
                None
            }
        } else {
            None
        }
    }
}

/// The next position a nested read continues from: parses always move
/// forward and never past the end, and this spells that out for the
/// termination measure.
pub open spec fn clamp_next(n: int, i: int, len: int) -> int {
    let j = if n > i {
        n
    } else {
        i + 1
    };
    if j <= len {
        j
    } else {
        len
    }
}

/// Reads one value starting at `i`, whitespace already skipped: the
/// dispatch over null, booleans, numbers, strings, arrays and objects.
pub open spec fn sp_value(s: Seq<char>, i: int) -> Option<(JsonSpec, int)>
    decreases s.len() - i, 0int,
{
    if i >= s.len() {
        None
    } else {
        let c = s[i];
        if c == 'n' {
            if i + 4 <= s.len() && s.subrange(i, i + 4) == "null"@ {
                Some((JsonSpec::Null, i + 4))
            } else {
                None
            }
        } else if c == 't' {
            if i + 4 <= s.len() && s.subrange(i, i + 4) == "true"@ {
                Some((JsonSpec::Bool(true), i + 4))
            } else {
                None
            }
        } else if c == 'f' {
            if i + 5 <= s.len() && s.subrange(i, i + 5) == "false"@ {
                Some((JsonSpec::Bool(false), i + 5))
            } else {
                None
            }
        } else if c == '"' {
            match sp_str_chars(s, i + 1) {
                Some((cs, n)) => Some((JsonSpec::Str(cs), n)),
                None => None,
            }
        } else if c == '-' || is_digit(c) {
            match sp_int(s, i) {
                Some((v, n)) => Some((JsonSpec::Int(v), n)),
                None => None,
            }
        } else if c == '[' {
            match sp_elems_first(s, i + 1) {
                Some((es, n)) => Some((JsonSpec::Arr(es), n)),
                None => None,
            }
        } else if c == '{' {
            match sp_members_first(s, i + 1) {
                Some((ms, n)) => Some((JsonSpec::Obj(ms), n)),
                None => None,
            }
        } else {
            None
        }
    }
}

/// Reads the elements after `[`: an empty array or a first element.
pub open spec fn sp_elems_first(s: Seq<char>, i: int) -> Option<(Seq<JsonSpec>, int)>
    decreases s.len() - i, 1int,
{
    if i >= s.len() {
        None
    } else if is_ws(s[i]) {
        sp_elems_first(s, i + 1)
    } else if s[i] == ']' {
        Some((Seq::empty(), i + 1))
    } else {
        match sp_value(s, i) {
            Some((v, n)) => match sp_elems_rest(s, clamp_next(n, i, s.len() as int)) {
                Some((t, m)) => Some((seq![v] + t, m)),
                None => None,
            },
            None => None,
        }
    }
}

/// After an element: either `]` ends the array or `,` demands another.
pub open spec fn sp_elems_rest(s: Seq<char>, i: int) -> Option<(Seq<JsonSpec>, int)>
    decreases s.len() - i, 1int,
{
    if i >= s.len() {
        None
    } else if is_ws(s[i]) {
        sp_elems_rest(s, i + 1)
    } else if s[i] == ']' {
        Some((Seq::empty(), i + 1))
    } else if s[i] == ',' {
        sp_elems_more(s, i + 1)
    } else {
        None
    }
}

/// After a comma: exactly one more element, then the rest.
pub open spec fn sp_elems_more(s: Seq<char>, i: int) -> Option<(Seq<JsonSpec>, int)>
    decreases s.len() - i, 1int,
{
    if i >= s.len() {
        None
    } else if is_ws(s[i]) {
        sp_elems_more(s, i + 1)
    } else {
        match sp_value(s, i) {
            Some((v, n)) => match sp_elems_rest(s, clamp_next(n, i, s.len() as int)) {
                Some((t, m)) => Some((seq![v] + t, m)),
                None => None,
            },
            None => None,
        }
    }
}

/// Reads the members after `{`: an empty object or a first key.
pub open spec fn sp_members_first(s: Seq<char>, i: int) -> Option<
    (Seq<(Seq<char>, JsonSpec)>, int),
>
    decreases s.len() - i, 1int,
{
    if i >= s.len() {
        None
    } else if is_ws(s[i]) {
        sp_members_first(s, i + 1)
    } else if s[i] == '}' {
        Some((Seq::empty(), i + 1))
    } else if s[i] == '"' {
        match sp_str_chars(s, i + 1) {
            Some((k, n)) => sp_member_val(s, clamp_next(n, i, s.len() as int), k),
            None => None,
        }
    } else {
        None
    }
}

/// After a key: a colon, then the member's value.
pub open spec fn sp_member_val(s: Seq<char>, i: int, k: Seq<char>) -> Option<
    (Seq<(Seq<char>, JsonSpec)>, int),
>
    decreases s.len() - i, 1int,
{
    if i >= s.len() {
        None
    } else if is_ws(s[i]) {
        sp_member_val(s, i + 1, k)
    } else if s[i] == ':' {
        sp_member_val2(s, i + 1, k)
    } else {
        None
    }
}

/// After a key's colon: the value, then the remaining members.
pub open spec fn sp_member_val2(s: Seq<char>, i: int, k: Seq<char>) -> Option<
    (Seq<(Seq<char>, JsonSpec)>, int),
>
    decreases s.len() - i, 1int,
{
    if i >= s.len() {
        None
    } else if is_ws(s[i]) {
        sp_member_val2(s, i + 1, k)
    } else {
        match sp_value(s, i) {
            Some((v, n)) => match sp_members_rest(s, clamp_next(n, i, s.len() as int)) {
                Some((t, m)) => Some((seq![(k, v)] + t, m)),
                None => None,
            },
            None => None,
        }
    }
}

/// After a member: either `}` ends the object or `,` demands another.
pub open spec fn sp_members_rest(s: Seq<char>, i: int) -> Option<
    (Seq<(Seq<char>, JsonSpec)>, int),
>
    decreases s.len() - i, 1int,
{
    if i >= s.len() {
        None
    } else if is_ws(s[i]) {
        sp_members_rest(s, i + 1)
    } else if s[i] == '}' {
        Some((Seq::empty(), i + 1))
    } else if s[i] == ',' {
        sp_members_more(s, i + 1)
    } else {
        None
    }
}

/// After a comma inside an object: exactly one more member.
pub open spec fn sp_members_more(s: Seq<char>, i: int) -> Option<
    (Seq<(Seq<char>, JsonSpec)>, int),
>
    decreases s.len() - i, 1int,
{
    if i >= s.len() {
        None
    } else if is_ws(s[i]) {
        sp_members_more(s, i + 1)
    } else if s[i] == '"' {
        match sp_str_chars(s, i + 1) {
            Some((k, n)) => sp_member_val(s, clamp_next(n, i, s.len() as int), k),
            None => None,
        }
    } else {
        None
    }
}

/// What a whole text means: one value, surrounded only by whitespace.
pub open spec fn sp_json(s: Seq<char>) -> Option<JsonSpec> {
    match sp_value(s, sp_ws(s, 0)) {
        Some((v, n)) => if sp_ws(s, n) == s.len() {
            Some(v)
        } else {
            None
        },
        None => None,
    }
}

} // verus!

verus! {

proof fn lemma_jv_views_concat(a: Seq<JsonValue>, b: Seq<JsonValue>)
    ensures
        jv_views(a + b) == jv_views(a) + jv_views(b),
    decreases b.len(),
{
    if b.len() == 0 {
        assert(a + b =~= a);
        assert(jv_views(a) + jv_views(b) =~= jv_views(a));
    } else {
        assert((a + b).drop_last() =~= a + b.drop_last());
        assert((a + b).last() == b.last());
        lemma_jv_views_concat(a, b.drop_last());
        assert(jv_views(a + b) =~= jv_views(a) + jv_views(b));
    }
}

proof fn lemma_jv_views_one(v: JsonValue, t: Seq<JsonValue>)
    ensures
        jv_views(seq![v] + t) == seq![jv_view(v)] + jv_views(t),
{
    lemma_jv_views_concat(seq![v], t);
    let s1 = seq![v];
    assert(s1.drop_last() =~= Seq::<JsonValue>::empty());
    assert(s1.last() == v);
    assert(jv_views(s1) == jv_views(s1.drop_last()).push(jv_view(v)));
    assert(jv_views(s1) =~= seq![jv_view(v)]);
}

proof fn lemma_jm_views_concat(a: Seq<(Vec<char>, JsonValue)>, b: Seq<(Vec<char>, JsonValue)>)
    ensures
        jm_views(a + b) == jm_views(a) + jm_views(b),
    decreases b.len(),
{
    if b.len() == 0 {
        assert(a + b =~= a);
        assert(jm_views(a) + jm_views(b) =~= jm_views(a));
    } else {
        assert((a + b).drop_last() =~= a + b.drop_last());
        assert((a + b).last() == b.last());
        lemma_jm_views_concat(a, b.drop_last());
        assert(jm_views(a + b) =~= jm_views(a) + jm_views(b));
    }
}

proof fn lemma_jm_views_one(k: Vec<char>, v: JsonValue, t: Seq<(Vec<char>, JsonValue)>)
    ensures
        jm_views(seq![(k, v)] + t) == seq![(k@, jv_view(v))] + jm_views(t),
{
    lemma_jm_views_concat(seq![(k, v)], t);
    let s1 = seq![(k, v)];
    assert(s1.drop_last() =~= Seq::<(Vec<char>, JsonValue)>::empty());
    assert(s1.last() == (k, v));
    assert(jm_views(s1) == jm_views(s1.drop_last()).push((k@, jv_view(v))));
    assert(jm_views(s1) =~= seq![(k@, jv_view(v))]);
}

fn char_lt_32(c: char) -> (r: bool)
    ensures
        r == ((c as int) < 32),
{
    (c as u32) < 32
}

pub fn is_ws_exec(c: char) -> (r: bool)
    ensures
        r == is_ws(c),
{
    c == ' ' || c == '\t' || c == '\n' || c == '\r'
}

fn is_digit_exec(c: char) -> (r: bool)
    ensures
        r == is_digit(c),
{
    let u = c as u32;
    48 <= u && u <= 57
}

fn hex_val_exec(c: char) -> (r: i32)
    ensures
        r as int == hex_val(c),
{
    let u = c as u32;
    if 48 <= u && u <= 57 {
        (u - 48) as i32
    } else if 97 <= u && u <= 102 {
        (u - 87) as i32
    } else if 65 <= u && u <= 70 {
        (u - 55) as i32
    } else {
        -1
    }
}

/// Advances past whitespace.
pub fn skip_ws(s: &Vec<char>, i: usize) -> (r: usize)
    requires
        i <= s@.len(),
    ensures
        r as int == sp_ws(s@, i as int),
        i <= r <= s@.len(),
{
    let mut cur = i;
    while cur < s.len() && is_ws_exec(s[cur])
        invariant
            i <= cur <= s@.len(),
            sp_ws(s@, i as int) == sp_ws(s@, cur as int),
        decreases s@.len() - cur,
    {
        cur += 1;
    }
    cur
}

spec fn prepend_chars(p: Seq<char>, r: Option<(Seq<char>, int)>) -> Option<(Seq<char>, int)> {
    match r {
        Some((t, n)) => Some((p + t, n)),
        None => None,
    }
}

proof fn lemma_prepend_step(p: Seq<char>, x: char, r: Option<(Seq<char>, int)>)
    ensures
        prepend_chars(
            p,
            match r {
                Some((t, n)) => Some((seq![x] + t, n)),
                None => None,
            },
        ) == prepend_chars(p.push(x), r),
{
    match r {
        Some((t, n)) => {
            assert(p + (seq![x] + t) =~= p.push(x) + t);
        },
        None => {},
    }
}

/// Reads a string body at `i`, just after the opening quote.
fn parse_str_body(s: &Vec<char>, i: usize) -> (r: Option<(Vec<char>, usize)>)
    requires
        i <= s@.len(),
    ensures
        (match r {
            Some((cs, n)) => sp_str_chars(s@, i as int) == Some((cs@, n as int)) && i < n
                <= s@.len(),
            None => sp_str_chars(s@, i as int) is None,
        }),
{
    let mut acc: Vec<char> = Vec::new();
    let mut cur = i;
    loop
        invariant
            i <= cur <= s@.len(),
            prepend_chars(acc@, sp_str_chars(s@, cur as int)) == sp_str_chars(s@, i as int),
            cur > i || acc@.len() == 0,
        decreases s@.len() - cur,
    {
        if cur == s.len() {
            return None;
        }
        let c = s[cur];
        if c == '"' {
            proof {
                assert(sp_str_chars(s@, cur as int) == Some(
                    (Seq::<char>::empty(), cur as int + 1),
                ));
                assert(acc@ + Seq::<char>::empty() =~= acc@);
            }
            return Some((acc, cur + 1));
        } else if c == '\\' {
            if s.len() - cur < 2 {
                proof {
                    assert(sp_str_chars(s@, cur as int) is None);
                }
                return None;
            }
            let e = s[cur + 1];
            if e == 'u' {
                if s.len() - cur < 6 {
                    proof {
                        assert(sp_str_chars(s@, cur as int) is None);
                    }
                    return None;
                }
                let h1 = hex_val_exec(s[cur + 2]);
                let h2 = hex_val_exec(s[cur + 3]);
                let h3 = hex_val_exec(s[cur + 4]);
                let h4 = hex_val_exec(s[cur + 5]);
                proof {
                    assert(h1 as int == hex_val(s@[cur as int + 2]));
                    assert(h2 as int == hex_val(s@[cur as int + 3]));
                    assert(h3 as int == hex_val(s@[cur as int + 4]));
                    assert(h4 as int == hex_val(s@[cur as int + 5]));
                }
                if h1 < 0 || h2 < 0 || h3 < 0 || h4 < 0 {
                    proof {
                        assert(sp_str_chars(s@, cur as int) is None);
                    }
                    return None;
                }
                let v = h1 * 4096 + h2 * 256 + h3 * 16 + h4;
                if v >= 128 {
                    proof {
                        assert(sp_str_chars(s@, cur as int) is None);
                    }
                    return None;
                }
                let x = (v as u8) as char;
                proof {
                    assert(sp_str_chars(s@, cur as int) == (match sp_str_chars(
                        s@,
                        cur as int + 6,
                    ) {
                        Some((t, n)) => Some((seq![x] + t, n)),
                        None => None,
                    }));
                    lemma_prepend_step(acc@, x, sp_str_chars(s@, cur as int + 6));
                }
                acc.push(x);
                cur += 6;
            } else {
                let mc: char;
                if e == '"' {
                    mc = '"';
                } else if e == '\\' {
                    mc = '\\';
                } else if e == '/' {
                    mc = '/';
                } else if e == 'n' {
                    mc = '\n';
                } else if e == 'r' {
                    mc = '\r';
                } else if e == 't' {
                    mc = '\t';
                } else if e == 'b' {
                    mc = '\u{8}';
                } else if e == 'f' {
                    mc = '\u{c}';
                } else {
                    proof {
                        assert(esc_map(e) is None);
                        assert(sp_str_chars(s@, cur as int) is None);
                    }
                    return None;
                }
                proof {
                    assert(esc_map(e) == Some(mc));
                    assert(sp_str_chars(s@, cur as int) == (match sp_str_chars(
                        s@,
                        cur as int + 2,
                    ) {
                        Some((t, n)) => Some((seq![mc] + t, n)),
                        None => None,
                    }));
                    lemma_prepend_step(acc@, mc, sp_str_chars(s@, cur as int + 2));
                }
                acc.push(mc);
                cur += 2;
            }
        } else if char_lt_32(c) {
            proof {
                assert(sp_str_chars(s@, cur as int) is None);
            }
            return None;
        } else {
            proof {
                assert(sp_str_chars(s@, cur as int) == (match sp_str_chars(
                    s@,
                    cur as int + 1,
                ) {
                    Some((t, n)) => Some((seq![c] + t, n)),
                    None => None,
                }));
                lemma_prepend_step(acc@, c, sp_str_chars(s@, cur as int + 1));
            }
            acc.push(c);
            cur += 1;
        }
    }
}

proof fn lemma_dec_val_nonneg(s: Seq<char>)
    requires
        crate::text::all_digits(s),
    ensures
        crate::text::dec_val(s) >= 0,
    decreases s.len(),
{
    if s.len() > 0 {
        assert(crate::text::all_digits(s.drop_last())) by {
            assert(forall|i: int|
                0 <= i < s.drop_last().len() ==> #[trigger] s.drop_last()[i] == s[i]);
        }
        lemma_dec_val_nonneg(s.drop_last());
        assert(s.last() as int - 48 >= 0) by {
            assert(s[s.len() - 1] == s.last());
        }
    }
}

proof fn lemma_dec_val_prefix(s: Seq<char>, k: int)
    requires
        0 <= k <= s.len(),
        crate::text::all_digits(s),
    ensures
        crate::text::dec_val(s.take(k)) <= crate::text::dec_val(s),
    decreases s.len(),
{
    if k < s.len() {
        assert(crate::text::all_digits(s.drop_last())) by {
            assert(forall|i: int|
                0 <= i < s.drop_last().len() ==> #[trigger] s.drop_last()[i] == s[i]);
        }
        assert(s.take(k) =~= s.drop_last().take(k));
        lemma_dec_val_prefix(s.drop_last(), k);
        lemma_dec_val_nonneg(s.drop_last());
        assert(s.last() as int - 48 >= 0) by {
            assert(s[s.len() - 1] == s.last());
        }
        assert(crate::text::dec_val(s.drop_last()) * 10 >= crate::text::dec_val(s.drop_last()));
    } else {
        assert(s.take(k) =~= s);
    }
}

/// Reads an integer at `i`.
fn parse_int_at(s: &Vec<char>, i: usize) -> (r: Option<(i64, usize)>)
    requires
        i <= s@.len(),
    ensures
        (match r {
            Some((v, n)) => sp_int(s@, i as int) == Some((v as int, n as int)) && i < n
                <= s@.len(),
            None => sp_int(s@, i as int) is None,
        }),
{
    let neg = i < s.len() && s[i] == '-';
    let start = if neg {
        i + 1
    } else {
        i
    };
    let mut e = start;
    while e < s.len() && is_digit_exec(s[e])
        invariant
            start <= e <= s@.len(),
            sp_digits_end(s@, start as int) == sp_digits_end(s@, e as int),
            forall|j: int| start <= j < e ==> is_digit(#[trigger] s@[j]),
        decreases s@.len() - e,
    {
        e += 1;
    }
    proof {
        assert(sp_digits_end(s@, e as int) == e as int);
    }
    if e == start {
        return None;
    }
    let ghost run = s@.subrange(start as int, e as int);
    proof {
        assert(crate::text::all_digits(run)) by {
            assert(forall|j: int| 0 <= j < run.len() ==> #[trigger] run[j] == s@[start + j]);
            assert(forall|j: int|
                0 <= j < run.len() ==> is_digit(#[trigger] run[j]) && 48 <= run[j] as int <= 57);
        }
    }
    let mut mag: u64 = 0;
    let mut k = start;
    while k < e
        invariant
            start <= k <= e <= s@.len(),
            run == s@.subrange(start as int, e as int),
            crate::text::all_digits(run),
            forall|j: int| start <= j < e ==> is_digit(#[trigger] s@[j]),
            mag == crate::text::dec_val(s@.subrange(start as int, k as int)),
            sp_digits_end(s@, start as int) == e as int,
            neg <==> (i < s@.len() && s@[i as int] == '-'),
            start as int == (if neg { i as int + 1 } else { i as int }),
            i <= start < e,
        decreases e - k,
    {
        let d = (s[k] as u32) - 48;
        if mag > (u64::MAX - 9) / 10 {
            proof {
                let part = s@.subrange(start as int, k as int + 1);
                assert(part.drop_last() =~= s@.subrange(start as int, k as int));
                assert(part.last() == s@[k as int]);
                assert(crate::text::dec_val(part) == mag * 10 + (s@[k as int] as int - 48));
                assert(part =~= run.take(k + 1 - start));
                lemma_dec_val_prefix(run, k + 1 - start);
                assert(mag * 10 > 0x8000_0000_0000_0000) by (nonlinear_arith)
                    requires
                        mag > (u64::MAX - 9) / 10,
                ;
                assert(crate::text::dec_val(run) > 0x8000_0000_0000_0000);
                assert(sp_int(s@, i as int) is None);
            }
            return None;
        }
        proof {
            assert(mag * 10 + 9 <= u64::MAX) by (nonlinear_arith)
                requires
                    mag <= (u64::MAX - 9) / 10,
            ;
            let part = s@.subrange(start as int, k as int + 1);
            assert(part.drop_last() =~= s@.subrange(start as int, k as int));
            assert(part.last() == s@[k as int]);
        }
        mag = mag * 10 + (d as u64);
        k += 1;
    }
    proof {
        assert(s@.subrange(start as int, e as int) == run);
        assert(mag == crate::text::dec_val(run));
    }
    proof {
        assert(sp_digits_end(s@, start as int) == e as int);
    }
    if neg {
        if mag > 0x8000_0000_0000_0000u64 {
            proof {
                assert(sp_int(s@, i as int) is None);
            }
            return None;
        }
        let v: i64 = if mag == 0x8000_0000_0000_0000u64 {
            i64::MIN
        } else {
            -(mag as i64)
        };
        Some((v, e))
    } else {
        if mag > 0x7fff_ffff_ffff_ffffu64 {
            proof {
                assert(sp_int(s@, i as int) is None);
            }
            return None;
        }
        Some((mag as i64, e))
    }
}

} // verus!

verus! {

/// Reads one value at `i`, whitespace already skipped.
fn parse_value_at(s: &Vec<char>, i: usize) -> (r: Option<(JsonValue, usize)>)
    requires
        i <= s@.len(),
    ensures
        (match r {
            Some((v, n)) => sp_value(s@, i as int) == Some((jv_view(v), n as int)) && i < n
                <= s@.len(),
            None => sp_value(s@, i as int) is None,
        }),
    decreases s@.len() - i, 0int,
{
    if i == s.len() {
        return None;
    }
    let c = s[i];
    if c == 'n' {
        if s.len() - i >= 4 && s[i + 1] == 'u' && s[i + 2] == 'l' && s[i + 3] == 'l' {
            proof {
                reveal_strlit("null");
                assert(s@.subrange(i as int, i as int + 4) =~= "null"@);
            }
            Some((JsonValue::Null, i + 4))
        } else {
            proof {
                reveal_strlit("null");
                assert(sp_value(s@, i as int) is None) by {
                    if i as int + 4 <= s@.len() && s@.subrange(i as int, i as int + 4) == "null"@ {
                        assert(s@[i as int + 1] == "null"@[1]);
                        assert(s@[i as int + 2] == "null"@[2]);
                        assert(s@[i as int + 3] == "null"@[3]);
                    }
                }
            }
            None
        }
    } else if c == 't' {
        if s.len() - i >= 4 && s[i + 1] == 'r' && s[i + 2] == 'u' && s[i + 3] == 'e' {
            proof {
                reveal_strlit("true");
                assert(s@.subrange(i as int, i as int + 4) =~= "true"@);
            }
            Some((JsonValue::Bool(true), i + 4))
        } else {
            proof {
                reveal_strlit("true");
                assert(sp_value(s@, i as int) is None) by {
                    if i as int + 4 <= s@.len() && s@.subrange(i as int, i as int + 4) == "true"@ {
                        assert(s@[i as int + 1] == "true"@[1]);
                        assert(s@[i as int + 2] == "true"@[2]);
                        assert(s@[i as int + 3] == "true"@[3]);
                    }
                }
            }
            None
        }
    } else if c == 'f' {
        if s.len() - i >= 5 && s[i + 1] == 'a' && s[i + 2] == 'l' && s[i + 3] == 's' && s[i + 4]
            == 'e' {
            proof {
                reveal_strlit("false");
                assert(s@.subrange(i as int, i as int + 5) =~= "false"@);
            }
            Some((JsonValue::Bool(false), i + 5))
        } else {
            proof {
                reveal_strlit("false");
                assert(sp_value(s@, i as int) is None) by {
                    if i as int + 5 <= s@.len() && s@.subrange(i as int, i as int + 5)
                        == "false"@ {
                        assert(s@[i as int + 1] == "false"@[1]);
                        assert(s@[i as int + 2] == "false"@[2]);
                        assert(s@[i as int + 3] == "false"@[3]);
                        assert(s@[i as int + 4] == "false"@[4]);
                    }
                }
            }
            None
        }
    } else if c == '"' {
        match parse_str_body(s, i + 1) {
            Some((cs, n)) => Some((JsonValue::Str(cs), n)),
            None => None,
        }
    } else if c == '-' || is_digit_exec(c) {
        match parse_int_at(s, i) {
            Some((v, n)) => Some((JsonValue::Int(v), n)),
            None => None,
        }
    } else if c == '[' {
        match parse_elems_first(s, i + 1) {
            Some((es, n)) => Some((JsonValue::Arr(es), n)),
            None => None,
        }
    } else if c == '{' {
        match parse_members_first(s, i + 1) {
            Some((ms, n)) => Some((JsonValue::Obj(ms), n)),
            None => None,
        }
    } else {
        None
    }
}

/// Reads array elements right after `[`.
fn parse_elems_first(s: &Vec<char>, i: usize) -> (r: Option<(Vec<JsonValue>, usize)>)
    requires
        i <= s@.len(),
    ensures
        (match r {
            Some((es, n)) => sp_elems_first(s@, i as int) == Some((jv_views(es@), n as int)) && i
                < n <= s@.len(),
            None => sp_elems_first(s@, i as int) is None,
        }),
    decreases s@.len() - i, 1int,
{
    let mut cur = i;
    while cur < s.len() && is_ws_exec(s[cur])
        invariant
            i <= cur <= s@.len(),
            sp_elems_first(s@, i as int) == sp_elems_first(s@, cur as int),
        decreases s@.len() - cur,
    {
        cur += 1;
    }
    if cur == s.len() {
        return None;
    }
    if s[cur] == ']' {
        proof {
            assert(jv_views(Seq::<JsonValue>::empty()) == Seq::<JsonSpec>::empty());
        }
        return Some((Vec::new(), cur + 1));
    }
    match parse_value_at(s, cur) {
        None => None,
        Some((v, n)) => {
            proof {
                assert(clamp_next(n as int, cur as int, s@.len() as int) == n as int);
            }
            match parse_elems_rest(s, n) {
                None => None,
                Some((t, m)) => {
                    let ghost tview = t@;
                    let mut out: Vec<JsonValue> = Vec::new();
                    out.push(v);
                    let mut t2 = t;
                    out.append(&mut t2);
                    proof {
                        assert(out@ =~= seq![v] + tview);
                        lemma_jv_views_one(v, tview);
                    }
                    Some((out, m))
                },
            }
        },
    }
}

/// After an array element: `]` or `,`.
fn parse_elems_rest(s: &Vec<char>, i: usize) -> (r: Option<(Vec<JsonValue>, usize)>)
    requires
        i <= s@.len(),
    ensures
        (match r {
            Some((es, n)) => sp_elems_rest(s@, i as int) == Some((jv_views(es@), n as int)) && i
                < n <= s@.len(),
            None => sp_elems_rest(s@, i as int) is None,
        }),
    decreases s@.len() - i, 1int,
{
    let mut cur = i;
    while cur < s.len() && is_ws_exec(s[cur])
        invariant
            i <= cur <= s@.len(),
            sp_elems_rest(s@, i as int) == sp_elems_rest(s@, cur as int),
        decreases s@.len() - cur,
    {
        cur += 1;
    }
    if cur == s.len() {
        return None;
    }
    if s[cur] == ']' {
        proof {
            assert(jv_views(Seq::<JsonValue>::empty()) == Seq::<JsonSpec>::empty());
        }
        return Some((Vec::new(), cur + 1));
    }
    if s[cur] == ',' {
        return parse_elems_more(s, cur + 1);
    }
    None
}

/// After a comma inside an array: one more element.
fn parse_elems_more(s: &Vec<char>, i: usize) -> (r: Option<(Vec<JsonValue>, usize)>)
    requires
        i <= s@.len(),
    ensures
        (match r {
            Some((es, n)) => sp_elems_more(s@, i as int) == Some((jv_views(es@), n as int)) && i
                < n <= s@.len(),
            None => sp_elems_more(s@, i as int) is None,
        }),
    decreases s@.len() - i, 1int,
{
    let mut cur = i;
    while cur < s.len() && is_ws_exec(s[cur])
        invariant
            i <= cur <= s@.len(),
            sp_elems_more(s@, i as int) == sp_elems_more(s@, cur as int),
        decreases s@.len() - cur,
    {
        cur += 1;
    }
    if cur == s.len() {
        return None;
    }
    match parse_value_at(s, cur) {
        None => None,
        Some((v, n)) => {
            proof {
                assert(clamp_next(n as int, cur as int, s@.len() as int) == n as int);
            }
            match parse_elems_rest(s, n) {
                None => None,
                Some((t, m)) => {
                    let ghost tview = t@;
                    let mut out: Vec<JsonValue> = Vec::new();
                    out.push(v);
                    let mut t2 = t;
                    out.append(&mut t2);
                    proof {
                        assert(out@ =~= seq![v] + tview);
                        lemma_jv_views_one(v, tview);
                    }
                    Some((out, m))
                },
            }
        },
    }
}

/// Reads object members right after `{`.
fn parse_members_first(s: &Vec<char>, i: usize) -> (r: Option<
    (Vec<(Vec<char>, JsonValue)>, usize),
>)
    requires
        i <= s@.len(),
    ensures
        (match r {
            Some((ms, n)) => sp_members_first(s@, i as int) == Some((jm_views(ms@), n as int))
                && i < n <= s@.len(),
            None => sp_members_first(s@, i as int) is None,
        }),
    decreases s@.len() - i, 1int,
{
    let mut cur = i;
    while cur < s.len() && is_ws_exec(s[cur])
        invariant
            i <= cur <= s@.len(),
            sp_members_first(s@, i as int) == sp_members_first(s@, cur as int),
        decreases s@.len() - cur,
    {
        cur += 1;
    }
    if cur == s.len() {
        return None;
    }
    if s[cur] == '}' {
        proof {
            assert(jm_views(Seq::<(Vec<char>, JsonValue)>::empty()) == Seq::<
                (Seq<char>, JsonSpec),
            >::empty());
        }
        return Some((Vec::new(), cur + 1));
    }
    if s[cur] == '"' {
        match parse_str_body(s, cur + 1) {
            None => None,
            Some((k, n)) => {
                proof {
                    assert(clamp_next(n as int, cur as int, s@.len() as int) == n as int);
                }
                parse_member_val(s, n, k)
            },
        }
    } else {
        None
    }
}

/// After an object key: the colon, then the value.
fn parse_member_val(s: &Vec<char>, i: usize, k: Vec<char>) -> (r: Option<
    (Vec<(Vec<char>, JsonValue)>, usize),
>)
    requires
        i <= s@.len(),
    ensures
        (match r {
            Some((ms, n)) => sp_member_val(s@, i as int, k@) == Some((jm_views(ms@), n as int))
                && i < n <= s@.len(),
            None => sp_member_val(s@, i as int, k@) is None,
        }),
    decreases s@.len() - i, 1int,
{
    let mut cur = i;
    while cur < s.len() && is_ws_exec(s[cur])
        invariant
            i <= cur <= s@.len(),
            sp_member_val(s@, i as int, k@) == sp_member_val(s@, cur as int, k@),
        decreases s@.len() - cur,
    {
        cur += 1;
    }
    if cur == s.len() {
        return None;
    }
    if s[cur] == ':' {
        parse_member_val2(s, cur + 1, k)
    } else {
        None
    }
}

/// After a key's colon: the value, then the remaining members.
fn parse_member_val2(s: &Vec<char>, i: usize, k: Vec<char>) -> (r: Option<
    (Vec<(Vec<char>, JsonValue)>, usize),
>)
    requires
        i <= s@.len(),
    ensures
        (match r {
            Some((ms, n)) => sp_member_val2(s@, i as int, k@) == Some((jm_views(ms@), n as int))
                && i < n <= s@.len(),
            None => sp_member_val2(s@, i as int, k@) is None,
        }),
    decreases s@.len() - i, 1int,
{
    let mut cur = i;
    while cur < s.len() && is_ws_exec(s[cur])
        invariant
            i <= cur <= s@.len(),
            sp_member_val2(s@, i as int, k@) == sp_member_val2(s@, cur as int, k@),
        decreases s@.len() - cur,
    {
        cur += 1;
    }
    if cur == s.len() {
        return None;
    }
    match parse_value_at(s, cur) {
        None => None,
        Some((v, n)) => {
            proof {
                assert(clamp_next(n as int, cur as int, s@.len() as int) == n as int);
            }
            match parse_members_rest(s, n) {
                None => None,
                Some((t, m)) => {
                    let ghost kview = k@;
                    let ghost tview = t@;
                    let mut out: Vec<(Vec<char>, JsonValue)> = Vec::new();
                    out.push((k, v));
                    let mut t2 = t;
                    out.append(&mut t2);
                    proof {
                        assert(out@ =~= seq![(out@[0].0, v)] + tview);
                        assert(out@[0].0@ == kview);
                        lemma_jm_views_one(out@[0].0, v, tview);
                    }
                    Some((out, m))
                },
            }
        },
    }
}

/// After a member: `}` or `,`.
fn parse_members_rest(s: &Vec<char>, i: usize) -> (r: Option<
    (Vec<(Vec<char>, JsonValue)>, usize),
>)
    requires
        i <= s@.len(),
    ensures
        (match r {
            Some((ms, n)) => sp_members_rest(s@, i as int) == Some((jm_views(ms@), n as int))
                && i < n <= s@.len(),
            None => sp_members_rest(s@, i as int) is None,
        }),
    decreases s@.len() - i, 1int,
{
    let mut cur = i;
    while cur < s.len() && is_ws_exec(s[cur])
        invariant
            i <= cur <= s@.len(),
            sp_members_rest(s@, i as int) == sp_members_rest(s@, cur as int),
        decreases s@.len() - cur,
    {
        cur += 1;
    }
    if cur == s.len() {
        return None;
    }
    if s[cur] == '}' {
        proof {
            assert(jm_views(Seq::<(Vec<char>, JsonValue)>::empty()) == Seq::<
                (Seq<char>, JsonSpec),
            >::empty());
        }
        return Some((Vec::new(), cur + 1));
    }
    if s[cur] == ',' {
        return parse_members_more(s, cur + 1);
    }
    None
}

/// After a comma inside an object: one more member.
fn parse_members_more(s: &Vec<char>, i: usize) -> (r: Option<
    (Vec<(Vec<char>, JsonValue)>, usize),
>)
    requires
        i <= s@.len(),
    ensures
        (match r {
            Some((ms, n)) => sp_members_more(s@, i as int) == Some((jm_views(ms@), n as int))
                && i < n <= s@.len(),
            None => sp_members_more(s@, i as int) is None,
        }),
    decreases s@.len() - i, 1int,
{
    let mut cur = i;
    while cur < s.len() && is_ws_exec(s[cur])
        invariant
            i <= cur <= s@.len(),
            sp_members_more(s@, i as int) == sp_members_more(s@, cur as int),
        decreases s@.len() - cur,
    {
        cur += 1;
    }
    if cur == s.len() {
        return None;
    }
    if s[cur] == '"' {
        match parse_str_body(s, cur + 1) {
            None => None,
            Some((k, n)) => {
                proof {
                    assert(clamp_next(n as int, cur as int, s@.len() as int) == n as int);
                }
                parse_member_val(s, n, k)
            },
        }
    } else {
        None
    }
}

/// Reads a whole text as one JSON document of the subset: exactly one value
/// surrounded only by whitespace, or nothing.
pub fn parse_json(s: &str) -> (r: Option<JsonValue>)
    ensures
        (match r {
            Some(v) => sp_json(s@) == Some(jv_view(v)),
            None => sp_json(s@) is None,
        }),
{
    let chars = crate::text::str_to_chars(s);
    let start = skip_ws(&chars, 0);
    match parse_value_at(&chars, start) {
        None => None,
        Some((v, n)) => {
            let e = skip_ws(&chars, n);
            if e == chars.len() {
                Some(v)
            } else {
                None
            }
        },
    }
}

} // verus!

verus! {

/// The value under the first member named `k`, if any.
pub open spec fn members_get(m: Seq<(Seq<char>, JsonSpec)>, k: Seq<char>) -> Option<JsonSpec>
    decreases m.len(),
{
    if m.len() == 0 {
        None
    } else if m.first().0 == k {
        Some(m.first().1)
    } else {
        members_get(m.drop_first(), k)
    }
}

/// The value under key `k` when `v` is an object, if any.
pub open spec fn obj_get(v: JsonSpec, k: Seq<char>) -> Option<JsonSpec> {
    match v {
        JsonSpec::Obj(m) => members_get(m, k),
        _ => None,
    }
}

fn chars_eq_str(a: &Vec<char>, b: &Vec<char>) -> (r: bool)
    ensures
        r == (a@ == b@),
{
    if a.len() != b.len() {
        return false;
    }
    let mut i: usize = 0;
    while i < a.len()
        invariant
            i <= a.len(),
            a@.len() == b@.len(),
            forall|j: int| 0 <= j < i ==> a@[j] == b@[j],
        decreases a.len() - i,
    {
        if a[i] != b[i] {
            return false;
        }
        i += 1;
    }
    proof {
        assert(a@ =~= b@);
    }
    true
}

impl JsonValue {
    /// Looks up the first member named `key` when this is an object.
    #[verifier::loop_isolation(false)]
    pub fn get<'a>(&'a self, key: &Vec<char>) -> (r: Option<&'a JsonValue>)
        ensures
            (match r {
                Some(v) => obj_get(jv_view(*self), key@) == Some(jv_view(*v)),
                None => obj_get(jv_view(*self), key@) is None,
            }),
    {
        match self {
            JsonValue::Obj(m) => {
                let ghost mv = jm_views(m@);
                proof {
                    assert(mv.skip(0) =~= mv);
                }
                let mut i: usize = 0;
                while i < m.len()
                    invariant
                        i <= m@.len(),
                        mv == jm_views(m@),
                        members_get(mv, key@) == members_get(mv.skip(i as int), key@),
                    decreases m@.len() - i,
                {
                    proof {
                        lemma_jm_views_len(m@);
                        assert(mv.skip(i as int).first() == mv[i as int]);
                        assert(mv.skip(i as int).drop_first() =~= mv.skip(i as int + 1));
                    }
                    if chars_eq_str(&m[i].0, key) {
                        proof {
                            assert(mv[i as int].0 == key@);
                            assert(members_get(mv.skip(i as int), key@) == Some(mv[i as int].1));
                            assert(jv_view(*self) == JsonSpec::Obj(mv));
                            assert(mv[i as int].1 == jv_view(m@[i as int].1));
                        }
                        return Some(&m[i].1);
                    }
                    proof {
                        assert(mv[i as int].0 != key@);
                    }
                    i += 1;
                }
                proof {
                    lemma_jm_views_len(m@);
                    assert(mv.skip(m@.len() as int) =~= Seq::<(Seq<char>, JsonSpec)>::empty());
                }
                None
            },
            _ => None,
        }
    }

    /// The content when this is a string.
    pub fn str_value(&self) -> (r: Option<String>)
        ensures
            (match r {
                Some(t) => jv_view(*self) == JsonSpec::Str(t@),
                None => !(jv_view(*self) is Str),
            }),
    {
        match self {
            JsonValue::Str(v) => Some(crate::text::chars_to_string(v)),
            _ => None,
        }
    }

    /// The value when this is an integer.
    pub fn int_value(&self) -> (r: Option<i64>)
        ensures
            (match r {
                Some(n) => jv_view(*self) == JsonSpec::Int(n as int),
                None => !(jv_view(*self) is Int),
            }),
    {
        match self {
            JsonValue::Int(n) => Some(*n),
            _ => None,
        }
    }

    /// The value when this is a boolean.
    pub fn bool_value(&self) -> (r: Option<bool>)
        ensures
            (match r {
                Some(b) => jv_view(*self) == JsonSpec::Bool(b),
                None => !(jv_view(*self) is Bool),
            }),
    {
        match self {
            JsonValue::Bool(b) => Some(*b),
            _ => None,
        }
    }

    /// A string node for `s`.
    pub fn of_str(s: &str) -> (r: JsonValue)
        ensures
            jv_view(r) == JsonSpec::Str(s@),
    {
        JsonValue::Str(crate::text::str_to_chars(s))
    }
}

} // verus!

verus! {

/// Whether a shape lies in the subset the writer and reader agree on:
/// every integer fits the signed 64-bit range.
pub open spec fn jspec_ok(v: JsonSpec) -> bool
    decreases v, 0int,
{
    match v {
        JsonSpec::Int(i) => i64::MIN <= i <= i64::MAX,
        JsonSpec::Arr(a) => jspec_all_ok(a),
        JsonSpec::Obj(m) => jspec_members_ok(m),
        _ => true,
    }
}

/// Whether every element's shape lies in the subset.
pub open spec fn jspec_all_ok(a: Seq<JsonSpec>) -> bool
    decreases a, 1int,
{
    if a.len() == 0 {
        true
    } else {
        jspec_ok(a.first()) && jspec_all_ok(a.drop_first())
    }
}

/// Whether every member value's shape lies in the subset.
pub open spec fn jspec_members_ok(m: Seq<(Seq<char>, JsonSpec)>) -> bool
    decreases m, 1int,
{
    if m.len() == 0 {
        true
    } else {
        jspec_ok(m.first().1) && jspec_members_ok(m.drop_first())
    }
}

/// Whether `t` stands in `s` at position `i`.
pub open spec fn embeds(s: Seq<char>, i: int, t: Seq<char>) -> bool {
    0 <= i && i + t.len() <= s.len() && s.subrange(i, i + t.len()) == t
}

proof fn lemma_char_bounds(c: char)
    ensures
        0 <= c as int && (c as int) < 0x110000,
{
}

proof fn lemma_embeds_index(s: Seq<char>, i: int, t: Seq<char>, k: int)
    requires
        embeds(s, i, t),
        0 <= k < t.len(),
    ensures
        s[i + k] == t[k],
{
    assert(s.subrange(i, i + t.len())[k] == s[i + k]);
}

proof fn lemma_esc_str_first(content: Seq<char>)
    requires
        content.len() > 0,
    ensures
        esc_str(content) == esc_char(content.first()) + esc_str(content.drop_first()),
    decreases content.len(),
{
    if content.len() == 1 {
        assert(content.drop_last() =~= Seq::<char>::empty());
        assert(content.drop_first() =~= Seq::<char>::empty());
        assert(content.last() == content.first());
        assert(esc_char(content.first()) + esc_str(content.drop_first()) =~= esc_char(
            content.first(),
        ));
        assert(esc_str(content) =~= esc_char(content.first()));
    } else {
        let head = content.drop_last();
        lemma_esc_str_first(head);
        assert(head.first() == content.first());
        assert(head.drop_first() =~= content.drop_first().drop_last());
        assert(content.drop_first().last() == content.last());
        assert(esc_str(content.drop_first()) == esc_str(content.drop_first().drop_last())
            + esc_char(content.drop_first().last()));
        assert(esc_str(content) =~= esc_char(content.first()) + esc_str(content.drop_first()));
    }
}

proof fn lemma_hex_of_hex_char(d: int)
    requires
        0 <= d < 16,
    ensures
        hex_val(hex_char(d)) == d,
{
    if d < 10 {
        assert(hex_char(d) == ((48 + d) as u8) as char);
        assert(hex_char(d) as int == 48 + d);
    } else {
        assert(hex_char(d) as int == 87 + d);
    }
}

proof fn lemma_str_chars_of_text(s: Seq<char>, i: int, content: Seq<char>)
    requires
        embeds(s, i, esc_str(content)),
        i + esc_str(content).len() < s.len(),
        s[i + esc_str(content).len()] == '"',
    ensures
        sp_str_chars(s, i) == Some((content, i + esc_str(content).len() + 1)),
    decreases content.len(),
{
    if content.len() == 0 {
        assert(esc_str(content).len() == 0);
        assert(s[i] == '"');
    } else {
        let c = content.first();
        let rest = content.drop_first();
        lemma_esc_str_first(content);
        let e = esc_char(c);
        assert(esc_str(content) == e + esc_str(rest));
        assert(embeds(s, i + e.len(), esc_str(rest))) by {
            assert(s.subrange(i + e.len(), i + e.len() + esc_str(rest).len()) =~= s.subrange(
                i,
                i + esc_str(content).len(),
            ).subrange(e.len() as int, esc_str(content).len() as int));
            assert(s.subrange(i, i + esc_str(content).len()).subrange(
                e.len() as int,
                esc_str(content).len() as int,
            ) =~= esc_str(rest));
        }
        assert(s[i + e.len() + esc_str(rest).len()] == '"');
        lemma_str_chars_of_text(s, i + e.len(), rest);
        assert forall|k: int| 0 <= k < e.len() implies s[i + k] == e[k] by {
            lemma_embeds_index(s, i, esc_str(content), k);
        }
        if c == '"' {
            assert(s[i] == '\\' && s[i + 1] == '"');
            assert(esc_map('"') == Some('"'));
            assert(seq![c] + rest =~= content);
        } else if c == '\\' {
            assert(s[i] == '\\' && s[i + 1] == '\\');
            assert(esc_map('\\') == Some('\\'));
            assert(seq![c] + rest =~= content);
        } else if (c as int) < 32 {
            lemma_char_bounds(c);
            assert(0 <= c as int / 16 < 16);
            assert(0 <= c as int % 16 < 16);
            assert(e == seq!['\\', 'u', '0', '0', hex_char(c as int / 16), hex_char(c as int % 16)]);
            assert(s[i] == '\\' && s[i + 1] == 'u');
            assert(s[i + 2] == '0' && s[i + 3] == '0');
            assert(s[i + 4] == hex_char(c as int / 16));
            assert(s[i + 5] == hex_char(c as int % 16));
            assert(hex_val('0') == 0);
            lemma_hex_of_hex_char(c as int / 16);
            lemma_hex_of_hex_char(c as int % 16);
            let v = hex_val(s[i + 2]) * 4096 + hex_val(s[i + 3]) * 256 + hex_val(s[i + 4]) * 16
                + hex_val(s[i + 5]);
            assert(v == c as int);
            assert(0 <= v < 32);
            assert(((v as u8) as char) == c);
            assert(i + 6 <= s.len());
            assert(seq![c] + rest =~= content);
        } else {
            assert(e == seq![c]);
            assert(e[0] == c);
            lemma_embeds_index(s, i, esc_str(content), 0);
            assert(esc_str(content)[0] == c);
            assert(s[i] == c);
            assert(seq![c] + rest =~= content);
        }
    }
}

proof fn lemma_digits_end_of_run(s: Seq<char>, i: int, j: int)
    requires
        0 <= i <= j <= s.len(),
        forall|k: int| i <= k < j ==> is_digit(#[trigger] s[k]),
        j == s.len() || !is_digit(s[j]),
    ensures
        sp_digits_end(s, i) == j,
    decreases j - i,
{
    if i < j {
        lemma_digits_end_of_run(s, i + 1, j);
    }
}

proof fn lemma_int_of_text(s: Seq<char>, i: int, v: int)
    requires
        i64::MIN <= v <= i64::MAX,
        embeds(s, i, crate::text::int_digits(v)),
        i + crate::text::int_digits(v).len() == s.len() || !is_digit(
            s[i + crate::text::int_digits(v).len()],
        ),
    ensures
        sp_int(s, i) == Some((v, i + crate::text::int_digits(v).len())),
{
    let txt = crate::text::int_digits(v);
    if v >= 0 {
        let d = crate::text::dec_digits(v as nat);
        assert(txt == d);
        crate::text::lemma_dec_digits_val(v as nat);
        assert forall|k: int| i <= k < i + d.len() implies is_digit(#[trigger] s[k]) by {
            lemma_embeds_index(s, i, d, k - i);
            assert('0' <= d[k - i] <= '9');
        }
        lemma_digits_end_of_run(s, i, i + d.len());
        assert(s[i] == d[0]) by {
            lemma_embeds_index(s, i, d, 0);
        }
        assert(is_digit(s[i]));
        assert(s[i] != '-');
        assert(s.subrange(i, i + d.len()) == d);
        assert(crate::text::dec_val(s.subrange(i, i + d.len())) == v);
    } else {
        let m = (-v) as nat;
        let d = crate::text::dec_digits(m);
        assert(txt == seq!['-'] + d);
        crate::text::lemma_dec_digits_val(m);
        assert(s[i] == '-') by {
            lemma_embeds_index(s, i, txt, 0);
        }
        assert forall|k: int| i + 1 <= k < i + 1 + d.len() implies is_digit(#[trigger] s[k]) by {
            lemma_embeds_index(s, i, txt, k - i);
            assert(txt[k - i] == d[k - i - 1]);
            assert('0' <= d[k - i - 1] <= '9');
        }
        lemma_digits_end_of_run(s, i + 1, i + 1 + d.len());
        assert(s.subrange(i + 1, i + 1 + d.len()) =~= d) by {
            assert forall|k: int| 0 <= k < d.len() implies s.subrange(
                i + 1,
                i + 1 + d.len(),
            )[k] == d[k] by {
                lemma_embeds_index(s, i, txt, k + 1);
            }
        }
        assert(crate::text::dec_val(s.subrange(i + 1, i + 1 + d.len())) == m);
        assert(m <= 0x8000_0000_0000_0000);
        assert(i + 1 + d.len() == i + txt.len());
    }
}

} // verus!

verus! {

/// The elements after the first, each preceded by its comma.
pub open spec fn jtext_arr_more(t: Seq<JsonSpec>) -> Seq<char>
    decreases t,
{
    if t.len() == 0 {
        Seq::empty()
    } else {
        seq![','] + jtext(t.first()) + jtext_arr_more(t.drop_first())
    }
}

/// The members after the first, each preceded by its comma.
pub open spec fn jtext_obj_more(t: Seq<(Seq<char>, JsonSpec)>) -> Seq<char>
    decreases t,
{
    if t.len() == 0 {
        Seq::empty()
    } else {
        seq![','] + jtext_member(t.first().0, t.first().1) + jtext_obj_more(t.drop_first())
    }
}

proof fn lemma_jtext_arr_front(a: Seq<JsonSpec>)
    requires
        a.len() > 0,
    ensures
        jtext_arr(a) == jtext(a.first()) + jtext_arr_more(a.drop_first()),
    decreases a.len(),
{
    if a.len() == 1 {
        assert(a.drop_first() =~= Seq::<JsonSpec>::empty());
        assert(jtext(a.first()) + jtext_arr_more(a.drop_first()) =~= jtext(a[0]));
    } else {
        let head = a.drop_last();
        lemma_jtext_arr_front(head);
        assert(head.first() == a.first());
        assert(head.drop_first() =~= a.drop_first().drop_last());
        assert(a.drop_first().last() == a.last());
        assert(a.drop_first().len() > 0);
        // unfold jtext_arr_more at the back
        lemma_jtext_arr_more_back(a.drop_first());
        assert(jtext_arr(a) == jtext_arr(head) + seq![','] + jtext(a.last()));
        assert(jtext_arr(a) =~= jtext(a.first()) + jtext_arr_more(a.drop_first()));
    }
}

proof fn lemma_jtext_arr_more_back(t: Seq<JsonSpec>)
    requires
        t.len() > 0,
    ensures
        jtext_arr_more(t) == jtext_arr_more(t.drop_last()) + seq![','] + jtext(t.last()),
    decreases t.len(),
{
    if t.len() == 1 {
        assert(t.drop_first() =~= Seq::<JsonSpec>::empty());
        assert(t.drop_last() =~= Seq::<JsonSpec>::empty());
        assert(jtext_arr_more(t) =~= seq![','] + jtext(t.first()));
        assert(jtext_arr_more(t.drop_last()) + seq![','] + jtext(t.last()) =~= seq![','] + jtext(
            t.first(),
        ));
    } else {
        lemma_jtext_arr_more_back(t.drop_first());
        assert(t.drop_first().last() == t.last());
        assert(t.drop_first().drop_last() =~= t.drop_last().drop_first());
        assert(t.drop_last().first() == t.first());
        assert(t.drop_last().len() > 0);
        assert(jtext_arr_more(t) =~= jtext_arr_more(t.drop_last()) + seq![','] + jtext(t.last()));
    }
}

proof fn lemma_jtext_obj_front(m: Seq<(Seq<char>, JsonSpec)>)
    requires
        m.len() > 0,
    ensures
        jtext_obj(m) == jtext_member(m.first().0, m.first().1) + jtext_obj_more(m.drop_first()),
    decreases m.len(),
{
    if m.len() == 1 {
        assert(m.drop_first() =~= Seq::<(Seq<char>, JsonSpec)>::empty());
        assert(jtext_member(m.first().0, m.first().1) + jtext_obj_more(m.drop_first())
            =~= jtext_member(m[0].0, m[0].1));
    } else {
        let head = m.drop_last();
        lemma_jtext_obj_front(head);
        assert(head.first() == m.first());
        assert(head.drop_first() =~= m.drop_first().drop_last());
        assert(m.drop_first().last() == m.last());
        assert(m.drop_first().len() > 0);
        lemma_jtext_obj_more_back(m.drop_first());
        assert(jtext_obj(m) == jtext_obj(head) + seq![','] + jtext_member(m.last().0, m.last().1));
        assert(jtext_obj(m) =~= jtext_member(m.first().0, m.first().1) + jtext_obj_more(
            m.drop_first(),
        ));
    }
}

proof fn lemma_jtext_obj_more_back(t: Seq<(Seq<char>, JsonSpec)>)
    requires
        t.len() > 0,
    ensures
        jtext_obj_more(t) == jtext_obj_more(t.drop_last()) + seq![','] + jtext_member(
            t.last().0,
            t.last().1,
        ),
    decreases t.len(),
{
    if t.len() == 1 {
        assert(t.drop_first() =~= Seq::<(Seq<char>, JsonSpec)>::empty());
        assert(t.drop_last() =~= Seq::<(Seq<char>, JsonSpec)>::empty());
        assert(jtext_obj_more(t) =~= seq![','] + jtext_member(t.first().0, t.first().1));
        assert(jtext_obj_more(t.drop_last()) + seq![','] + jtext_member(t.last().0, t.last().1)
            =~= seq![','] + jtext_member(t.first().0, t.first().1));
    } else {
        lemma_jtext_obj_more_back(t.drop_first());
        assert(t.drop_first().last() == t.last());
        assert(t.drop_first().drop_last() =~= t.drop_last().drop_first());
        assert(t.drop_last().first() == t.first());
        assert(t.drop_last().len() > 0);
        assert(jtext_obj_more(t) =~= jtext_obj_more(t.drop_last()) + seq![','] + jtext_member(
            t.last().0,
            t.last().1,
        ));
    }
}

/// A value's text is never empty and never starts with whitespace or a
/// structural delimiter.
proof fn lemma_jtext_first(v: JsonSpec)
    ensures
        jtext(v).len() > 0,
        !is_ws(jtext(v)[0]),
        jtext(v)[0] != ']',
        jtext(v)[0] != '}',
        jtext(v)[0] != ',',
        jtext(v)[0] != ':',
{
    match v {
        JsonSpec::Null => {
            reveal_strlit("null");
        },
        JsonSpec::Bool(b) => {
            if b {
                reveal_strlit("true");
            } else {
                reveal_strlit("false");
            }
        },
        JsonSpec::Int(i) => {
            if i >= 0 {
                crate::text::lemma_dec_digits_val(i as nat);
                assert('0' <= jtext(v)[0] <= '9');
            } else {
                assert(jtext(v)[0] == '-');
            }
        },
        JsonSpec::Str(_) => {
            assert(jtext(v)[0] == '"');
        },
        JsonSpec::Arr(_) => {
            assert(jtext(v)[0] == '[');
        },
        JsonSpec::Obj(_) => {
            assert(jtext(v)[0] == '{');
        },
    }
}

} // verus!

verus! {

proof fn lemma_embeds_sub(s: Seq<char>, i: int, t1: Seq<char>, t2: Seq<char>)
    requires
        embeds(s, i, t1 + t2),
    ensures
        embeds(s, i, t1),
        embeds(s, i + t1.len(), t2),
    decreases 0int,
{
    assert(s.subrange(i, i + t1.len()) =~= t1) by {
        assert forall|k: int| 0 <= k < t1.len() implies s.subrange(i, i + t1.len())[k]
            == t1[k] by {
            lemma_embeds_index(s, i, t1 + t2, k);
            assert((t1 + t2)[k] == t1[k]);
        }
    }
    assert(s.subrange(i + t1.len(), i + t1.len() + t2.len()) =~= t2) by {
        assert forall|k: int| 0 <= k < t2.len() implies s.subrange(
            i + t1.len(),
            i + t1.len() + t2.len(),
        )[k] == t2[k] by {
            lemma_embeds_index(s, i, t1 + t2, t1.len() + k);
            assert((t1 + t2)[t1.len() + k] == t2[k]);
        }
    }
}

proof fn lemma_value_of_text(s: Seq<char>, i: int, v: JsonSpec)
    requires
        jspec_ok(v),
        embeds(s, i, jtext(v)),
        i + jtext(v).len() == s.len() || !is_digit(s[i + jtext(v).len()]),
    ensures
        sp_value(s, i) == Some((v, i + jtext(v).len())),
    decreases v, 0int,
{
    lemma_jtext_first(v);
    let txt = jtext(v);
    assert(s[i] == txt[0]) by {
        lemma_embeds_index(s, i, txt, 0);
    }
    match v {
        JsonSpec::Null => {
            reveal_strlit("null");
            assert(s[i] == 'n');
            assert(s.subrange(i, i + 4) == "null"@);
        },
        JsonSpec::Bool(b) => {
            if b {
                reveal_strlit("true");
                assert(s[i] == 't');
                assert(s.subrange(i, i + 4) == "true"@);
            } else {
                reveal_strlit("false");
                assert(s[i] == 'f');
                assert(s.subrange(i, i + 5) == "false"@);
            }
        },
        JsonSpec::Int(n) => {
            lemma_int_of_text(s, i, n);
            if n >= 0 {
                crate::text::lemma_dec_digits_val(n as nat);
                assert('0' <= txt[0] <= '9');
                assert(is_digit(s[i]));
            } else {
                assert(s[i] == '-');
            }
        },
        JsonSpec::Str(cs) => {
            assert(s[i] == '"');
            assert(txt == seq!['"'] + esc_str(cs) + seq!['"']);
            assert(embeds(s, i + 1, esc_str(cs))) by {
                assert(txt =~= seq!['"'] + (esc_str(cs) + seq!['"']));
                lemma_embeds_sub(s, i, seq!['"'], esc_str(cs) + seq!['"']);
                lemma_embeds_sub(s, i + 1, esc_str(cs), seq!['"']);
            }
            assert(s[i + 1 + esc_str(cs).len()] == '"') by {
                lemma_embeds_index(s, i, txt, 1 + esc_str(cs).len() as int);
                assert(txt[1 + esc_str(cs).len() as int] == '"');
            }
            lemma_str_chars_of_text(s, i + 1, cs);
        },
        JsonSpec::Arr(a) => {
            assert(s[i] == '[');
            assert(txt == seq!['['] + jtext_arr(a) + seq![']']);
            assert(embeds(s, i + 1, jtext_arr(a) + seq![']'])) by {
                assert(txt =~= seq!['['] + (jtext_arr(a) + seq![']']));
                lemma_embeds_sub(s, i, seq!['['], jtext_arr(a) + seq![']']);
            }
            lemma_elems_first_of_text(s, i + 1, a);
        },
        JsonSpec::Obj(m) => {
            assert(s[i] == '{');
            assert(txt == seq!['{'] + jtext_obj(m) + seq!['}']);
            assert(embeds(s, i + 1, jtext_obj(m) + seq!['}'])) by {
                assert(txt =~= seq!['{'] + (jtext_obj(m) + seq!['}']));
                lemma_embeds_sub(s, i, seq!['{'], jtext_obj(m) + seq!['}']);
            }
            lemma_members_first_of_text(s, i + 1, m);
        },
    }
}

proof fn lemma_elems_first_of_text(s: Seq<char>, i: int, a: Seq<JsonSpec>)
    requires
        jspec_all_ok(a),
        embeds(s, i, jtext_arr(a) + seq![']']),
    ensures
        sp_elems_first(s, i) == Some((a, i + jtext_arr(a).len() + 1)),
    decreases a, 1int,
{
    if a.len() == 0 {
        assert(jtext_arr(a).len() == 0);
        assert(s[i] == ']') by {
            lemma_embeds_index(s, i, jtext_arr(a) + seq![']'], 0);
        }
    } else {
        let a0 = a.first();
        let rest = a.drop_first();
        lemma_jtext_arr_front(a);
        lemma_jtext_first(a0);
        assert(jtext_arr(a) + seq![']'] =~= jtext(a0) + (jtext_arr_more(rest) + seq![']']));
        lemma_embeds_sub(s, i, jtext(a0), jtext_arr_more(rest) + seq![']']);
        assert(s[i] == jtext(a0)[0]) by {
            lemma_embeds_index(s, i, jtext(a0), 0);
        }
        let n0 = i + jtext(a0).len();
        assert(s[n0] == (jtext_arr_more(rest) + seq![']'])[0]) by {
            lemma_embeds_index(s, n0, jtext_arr_more(rest) + seq![']'], 0);
        }
        if rest.len() == 0 {
            assert(s[n0] == ']');
        } else {
            assert(jtext_arr_more(rest)[0] == ',');
            assert(s[n0] == ',');
        }
        assert(!is_digit(s[n0]));
        lemma_value_of_text(s, i, a0);
        assert(clamp_next(n0, i, s.len() as int) == n0);
        lemma_elems_rest_of_text(s, n0, rest);
        assert(seq![a0] + rest =~= a);
    }
}

proof fn lemma_elems_rest_of_text(s: Seq<char>, i: int, t: Seq<JsonSpec>)
    requires
        jspec_all_ok(t),
        embeds(s, i, jtext_arr_more(t) + seq![']']),
    ensures
        sp_elems_rest(s, i) == Some((t, i + jtext_arr_more(t).len() + 1)),
    decreases t, 3int,
{
    if t.len() == 0 {
        assert(s[i] == ']') by {
            lemma_embeds_index(s, i, jtext_arr_more(t) + seq![']'], 0);
        }
    } else {
        assert(s[i] == ',') by {
            lemma_embeds_index(s, i, jtext_arr_more(t) + seq![']'], 0);
            assert(jtext_arr_more(t)[0] == ',');
        }
        assert(jtext_arr_more(t) + seq![']'] =~= seq![','] + (jtext(t.first()) + jtext_arr_more(
            t.drop_first(),
        ) + seq![']']));
        lemma_embeds_sub(
            s,
            i,
            seq![','],
            jtext(t.first()) + jtext_arr_more(t.drop_first()) + seq![']'],
        );
        lemma_elems_more_of_text(s, i + 1, t);
    }
}

proof fn lemma_elems_more_of_text(s: Seq<char>, i: int, t: Seq<JsonSpec>)
    requires
        t.len() > 0,
        jspec_all_ok(t),
        embeds(s, i, jtext(t.first()) + jtext_arr_more(t.drop_first()) + seq![']']),
    ensures
        sp_elems_more(s, i) == Some(
            (t, i + jtext(t.first()).len() + jtext_arr_more(t.drop_first()).len() + 1),
        ),
    decreases t, 2int,
{
    let t0 = t.first();
    let rest = t.drop_first();
    lemma_jtext_first(t0);
    assert(jtext(t0) + jtext_arr_more(rest) + seq![']'] =~= jtext(t0) + (jtext_arr_more(rest)
        + seq![']']));
    lemma_embeds_sub(s, i, jtext(t0), jtext_arr_more(rest) + seq![']']);
    assert(s[i] == jtext(t0)[0]) by {
        lemma_embeds_index(s, i, jtext(t0), 0);
    }
    let n0 = i + jtext(t0).len();
    assert(s[n0] == (jtext_arr_more(rest) + seq![']'])[0]) by {
        lemma_embeds_index(s, n0, jtext_arr_more(rest) + seq![']'], 0);
    }
    if rest.len() == 0 {
        assert(s[n0] == ']');
    } else {
        assert(jtext_arr_more(rest)[0] == ',');
        assert(s[n0] == ',');
    }
    assert(!is_digit(s[n0]));
    lemma_value_of_text(s, i, t0);
    assert(clamp_next(n0, i, s.len() as int) == n0);
    lemma_elems_rest_of_text(s, n0, rest);
    assert(seq![t0] + rest =~= t);
}

proof fn lemma_members_first_of_text(s: Seq<char>, i: int, m: Seq<(Seq<char>, JsonSpec)>)
    requires
        jspec_members_ok(m),
        embeds(s, i, jtext_obj(m) + seq!['}']),
    ensures
        sp_members_first(s, i) == Some((m, i + jtext_obj(m).len() + 1)),
    decreases m, 1int,
{
    if m.len() == 0 {
        assert(jtext_obj(m).len() == 0);
        assert(s[i] == '}') by {
            lemma_embeds_index(s, i, jtext_obj(m) + seq!['}'], 0);
        }
    } else {
        lemma_jtext_obj_front(m);
        assert(jtext_obj(m) + seq!['}'] =~= jtext_member(m.first().0, m.first().1) + (
        jtext_obj_more(m.drop_first()) + seq!['}']));
        lemma_member_of_text(s, i, m);
    }
}

proof fn lemma_member_of_text(s: Seq<char>, i: int, m: Seq<(Seq<char>, JsonSpec)>)
    requires
        m.len() > 0,
        jspec_members_ok(m),
        embeds(s, i, jtext_member(m.first().0, m.first().1) + (jtext_obj_more(m.drop_first())
            + seq!['}'])),
    ensures
        sp_members_first(s, i) == Some(
            (m, i + jtext_member(m.first().0, m.first().1).len() + jtext_obj_more(
                m.drop_first(),
            ).len() + 1),
        ),
        sp_members_more(s, i) == Some(
            (m, i + jtext_member(m.first().0, m.first().1).len() + jtext_obj_more(
                m.drop_first(),
            ).len() + 1),
        ),
    decreases m, 0int,
{
    let k0 = m.first().0;
    let v0 = m.first().1;
    let rest = m.drop_first();
    let mtxt = jtext_member(k0, v0);
    let tail = jtext_obj_more(rest) + seq!['}'];
    lemma_embeds_sub(s, i, mtxt, tail);
    assert(mtxt == seq!['"'] + esc_str(k0) + seq!['"', ':'] + jtext(v0));
    assert(s[i] == '"') by {
        lemma_embeds_index(s, i, mtxt, 0);
        assert(mtxt[0] == '"');
    }
    // the key string
    assert(embeds(s, i + 1, esc_str(k0))) by {
        assert(mtxt + tail =~= seq!['"'] + (esc_str(k0) + (seq!['"', ':'] + (jtext(v0) + tail))));
        lemma_embeds_sub(s, i, seq!['"'], esc_str(k0) + (seq!['"', ':'] + (jtext(v0) + tail)));
        lemma_embeds_sub(s, i + 1, esc_str(k0), seq!['"', ':'] + (jtext(v0) + tail));
    }
    let nk = i + 1 + esc_str(k0).len();
    assert(s[nk] == '"' && s[nk + 1] == ':') by {
        lemma_embeds_index(s, i, mtxt, 1 + esc_str(k0).len() as int);
        lemma_embeds_index(s, i, mtxt, 2 + esc_str(k0).len() as int);
        assert(mtxt[1 + esc_str(k0).len() as int] == '"');
        assert(mtxt[2 + esc_str(k0).len() as int] == ':');
    }
    lemma_str_chars_of_text(s, i + 1, k0);
    assert(sp_str_chars(s, i + 1) == Some((k0, nk + 1)));
    assert(clamp_next(nk + 1, i, s.len() as int) == nk + 1);
    // the colon, then the value
    let nv = nk + 2;
    assert(!is_ws(s[nk + 1]));
    lemma_jtext_first(v0);
    assert(embeds(s, nv, jtext(v0))) by {
        assert(mtxt + tail =~= (seq!['"'] + esc_str(k0) + seq!['"', ':']) + (jtext(v0) + tail));
        lemma_embeds_sub(s, i, seq!['"'] + esc_str(k0) + seq!['"', ':'], jtext(v0) + tail);
        lemma_embeds_sub(s, nv, jtext(v0), tail);
    }
    assert(s[nv] == jtext(v0)[0]) by {
        lemma_embeds_index(s, nv, jtext(v0), 0);
    }
    let n0 = nv + jtext(v0).len();
    assert(s[n0] == tail[0]) by {
        lemma_embeds_index(s, n0, tail, 0);
    }
    if rest.len() == 0 {
        assert(s[n0] == '}');
    } else {
        assert(jtext_obj_more(rest)[0] == ',');
        assert(s[n0] == ',');
    }
    assert(!is_digit(s[n0]));
    lemma_value_of_text(s, nv, v0);
    assert(clamp_next(n0, nv, s.len() as int) == n0);
    assert(embeds(s, n0, jtext_obj_more(rest) + seq!['}'])) by {
        lemma_embeds_sub(s, n0, jtext_obj_more(rest), seq!['}']);
    }
    lemma_members_rest_of_text(s, n0, rest);
    assert(seq![(k0, v0)] + rest =~= m);
    assert(sp_member_val(s, nk + 1, k0) == sp_member_val2(s, nv, k0));
}

proof fn lemma_members_rest_of_text(s: Seq<char>, i: int, t: Seq<(Seq<char>, JsonSpec)>)
    requires
        jspec_members_ok(t),
        embeds(s, i, jtext_obj_more(t) + seq!['}']),
    ensures
        sp_members_rest(s, i) == Some((t, i + jtext_obj_more(t).len() + 1)),
    decreases t, 3int,
{
    if t.len() == 0 {
        assert(s[i] == '}') by {
            lemma_embeds_index(s, i, jtext_obj_more(t) + seq!['}'], 0);
        }
    } else {
        assert(s[i] == ',') by {
            lemma_embeds_index(s, i, jtext_obj_more(t) + seq!['}'], 0);
            assert(jtext_obj_more(t)[0] == ',');
        }
        assert(jtext_obj_more(t) + seq!['}'] =~= seq![','] + (jtext_member(t.first().0, t.first().1)
            + (jtext_obj_more(t.drop_first()) + seq!['}'])));
        lemma_embeds_sub(
            s,
            i,
            seq![','],
            jtext_member(t.first().0, t.first().1) + (jtext_obj_more(t.drop_first()) + seq!['}']),
        );
        lemma_member_of_text(s, i + 1, t);
    }
}

/// Reading the canonical text of any in-range shape yields that shape
/// back: the parser inverts the writer.
pub proof fn lemma_parse_of_jtext(v: JsonSpec)
    requires
        jspec_ok(v),
    ensures
        sp_json(jtext(v)) == Some(v),
{
    let s = jtext(v);
    lemma_jtext_first(v);
    assert(s.subrange(0, s.len() as int) =~= s);
    assert(embeds(s, 0, s));
    assert(sp_ws(s, 0) == 0);
    lemma_value_of_text(s, 0, v);
    assert(sp_ws(s, s.len() as int) == s.len());
}

} // verus!

verus! {

/// Unfolds member well-formedness for an object of three members.
pub proof fn lemma_members_ok_unfold3(v: JsonSpec)
    requires
        v is Obj,
        v->Obj_0.len() == 3,
        jspec_ok(v->Obj_0[0].1),
        jspec_ok(v->Obj_0[1].1),
        jspec_ok(v->Obj_0[2].1),
    ensures
        jspec_ok(v),
{
    let m = v->Obj_0;
    assert(m.first() == m[0]);
    assert(m.drop_first().first() == m[1]);
    assert(m.drop_first().drop_first().first() == m[2]);
    assert(m.drop_first().drop_first().drop_first() =~= Seq::<(Seq<char>, JsonSpec)>::empty());
    assert(jspec_members_ok(m.drop_first().drop_first().drop_first()));
    assert(jspec_members_ok(m.drop_first().drop_first()));
    assert(jspec_members_ok(m.drop_first()));
    assert(jspec_members_ok(m));
}

} // verus!
