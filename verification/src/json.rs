//! JSON text without white space: lists, objects and their fields, around the
//! quoted strings of `serde_json`.
use vstd::prelude::*;
use vstd::string::*;
use crate::outside::{json_char, json_chars, json_quote, json_string};
use crate::text::{decimal, hex_digit, lemma_concat_split, lemma_decimal_delimited, texts};

verus! {

/// Texts with commas between them.
pub open spec fn joined(items: Seq<Seq<char>>) -> Seq<char>
    decreases items.len(),
{
    if items.len() == 0 {
        seq![]
    } else if items.len() == 1 {
        items[0]
    } else {
        items[0] + seq![','] + joined(items.drop_first())
    }
}

/// A JSON list.
pub open spec fn json_list(items: Seq<Seq<char>>) -> Seq<char> {
    seq!['['] + joined(items) + seq![']']
}

/// A field of a JSON object.
pub open spec fn json_field(key: Seq<char>, value: Seq<char>) -> Seq<char> {
    json_string(key) + seq![':'] + value
}

/// A JSON object.
pub open spec fn json_object(fields: Seq<Seq<char>>) -> Seq<char> {
    seq!['{'] + joined(fields) + seq!['}']
}

/// A JSON list of strings.
pub open spec fn json_strings(items: Seq<Seq<char>>) -> Seq<char> {
    json_list(items.map_values(|s: Seq<char>| json_string(s)))
}

/// A text, or the word for nothing.
pub open spec fn json_optional_string(s: Option<Seq<char>>) -> Seq<char> {
    match s {
        Some(s) => json_string(s),
        None => "null"@,
    }
}

/// Joining one text more.
proof fn lemma_joined_push(items: Seq<Seq<char>>, item: Seq<char>)
    ensures
        items.len() > 0 ==> joined(items.push(item)) == joined(items) + seq![','] + item,
        items.len() == 0 ==> joined(items.push(item)) == item,
    decreases items.len(),
{
    if items.len() > 0 {
        assert(items.push(item).drop_first() =~= items.drop_first().push(item));
        lemma_joined_push(items.drop_first(), item);
        assert(joined(items.push(item)) =~= joined(items) + seq![','] + item);
    }
}

/// Appends texts with commas between them.
fn push_joined(out: &mut String, items: &Vec<String>)
    ensures
        final(out)@ == old(out)@ + joined(texts(items@)),
{
    let mut i: usize = 0;
    let ghost all = texts(items@);
    assert(out@ =~= old(out)@ + joined(all.take(0)));
    while i < items.len()
        invariant
            i <= items@.len(),
            all == texts(items@),
            out@ == old(out)@ + joined(all.take(i as int)),
        decreases items.len() - i,
    {
        proof {
            assert(all.take(i + 1) =~= all.take(i as int).push(all[i as int]));
            lemma_joined_push(all.take(i as int), all[i as int]);
        }
        if i > 0 {
            out.push(',');
        }
        out.append(items[i].as_str());
        assert(out@ =~= old(out)@ + joined(all.take(i + 1)));
        i = i + 1;
    }
    assert(all.take(i as int) =~= all);
}

/// Writes a JSON list of texts that are JSON themselves.
pub fn write_list(items: &Vec<String>) -> (s: String)
    ensures
        s@ == json_list(texts(items@)),
{
    let mut s = String::new();
    s.push('[');
    push_joined(&mut s, items);
    s.push(']');
    assert(s@ =~= json_list(texts(items@)));
    s
}

/// Writes a JSON object of fields.
pub fn write_object(fields: &Vec<String>) -> (s: String)
    ensures
        s@ == json_object(texts(fields@)),
{
    let mut s = String::new();
    s.push('{');
    push_joined(&mut s, fields);
    s.push('}');
    assert(s@ =~= json_object(texts(fields@)));
    s
}

/// Writes a field of a JSON object, of a value that is JSON itself.
pub fn write_field(key: &str, value: &str) -> (s: String)
    ensures
        s@ == json_field(key@, value@),
{
    let mut s = json_quote(key);
    s.push(':');
    s.append(value);
    assert(s@ =~= json_field(key@, value@));
    s
}

/// Writes a JSON list of strings.
pub fn write_strings(items: &Vec<String>) -> (s: String)
    ensures
        s@ == json_strings(texts(items@)),
{
    let mut quoted: Vec<String> = Vec::new();
    let mut i: usize = 0;
    while i < items.len()
        invariant
            i <= items@.len(),
            quoted@.len() == i,
            forall|j: int| 0 <= j < i ==> (#[trigger] quoted@[j])@ == json_string(items@[j]@),
        decreases items.len() - i,
    {
        quoted.push(json_quote(items[i].as_str()));
        i = i + 1;
    }
    assert(texts(quoted@) =~= texts(items@).map_values(|s: Seq<char>| json_string(s)));
    write_list(&quoted)
}

/// Writes a text, or the word for nothing.
pub fn write_optional_string(v: &Option<String>) -> (s: String)
    ensures
        s@ == json_optional_string(match *v {
            Some(v) => Some(v@),
            None => None,
        }),
{
    match v {
        Some(v) => json_quote(v.as_str()),
        None => "null".to_owned(),
    }
}

// ---------------------------------------------------------------------------
// Reading back
// ---------------------------------------------------------------------------

/// Whether the code of a value can be told from the text behind it, and gives
/// the value away.
pub open spec fn self_delimiting<T>(code: spec_fn(T) -> Seq<char>) -> bool {
    forall|a: T, x: Seq<char>, b: T, y: Seq<char>|
        #[trigger] (code(a) + x) == #[trigger] (code(b) + y) ==> a == b && x == y
}

/// Whether no code of a value is empty or starts as the end of a list does.
pub open spec fn starts_apart<T>(code: spec_fn(T) -> Seq<char>) -> bool {
    forall|a: T| (#[trigger] code(a)).len() > 0 && code(a)[0] != ']'
}

/// One character of a string can be told from what follows it.
proof fn lemma_json_char_delimited(c: char, x: Seq<char>, d: char, y: Seq<char>)
    requires
        json_char(c) + x == json_char(d) + y,
    ensures
        c == d,
        x == y,
{
    let (a, b) = (json_char(c), json_char(d));
    assert((a + x)[0] == a[0] && (b + y)[0] == b[0]);
    if a.len() > 1 && b.len() > 1 {
        assert((a + x)[1] == a[1] && (b + y)[1] == b[1]);
        if a.len() == 6 && b.len() == 6 {
            assert((a + x)[4] == a[4] && (b + y)[4] == b[4]);
            assert((a + x)[5] == a[5] && (b + y)[5] == b[5]);
            assert(hex_digit(c as int / 16) == hex_digit(d as int / 16));
            assert(hex_digit(c as int % 16) == hex_digit(d as int % 16));
            assert(c as int / 16 == d as int / 16);
            assert(c as int % 16 == d as int % 16);
        }
    }
    assert(c == d);
    lemma_concat_split(a, x, b, y);
}

/// The characters of a string can be told from what follows the quotation mark.
proof fn lemma_json_chars_delimited(a: Seq<char>, x: Seq<char>, b: Seq<char>, y: Seq<char>)
    requires
        json_chars(a) + (seq!['"'] + x) == json_chars(b) + (seq!['"'] + y),
    ensures
        a == b,
        x == y,
    decreases a.len(),
{
    let q = seq!['"'];
    let (l, r) = (json_chars(a) + (q + x), json_chars(b) + (q + y));
    if a.len() == 0 && b.len() == 0 {
        assert(a =~= b);
        lemma_concat_split(json_chars(a) + q, x, json_chars(b) + q, y);
    } else if a.len() == 0 {
        assert(l[0] == '"');
        assert(r[0] == json_char(b[0])[0]);
    } else if b.len() == 0 {
        assert(r[0] == '"');
        assert(l[0] == json_char(a[0])[0]);
    } else {
        let (a1, b1) = (a.drop_first(), b.drop_first());
        assert(l =~= json_char(a[0]) + (json_chars(a1) + (q + x)));
        assert(r =~= json_char(b[0]) + (json_chars(b1) + (q + y)));
        lemma_json_char_delimited(
            a[0],
            json_chars(a1) + (q + x),
            b[0],
            json_chars(b1) + (q + y),
        );
        lemma_json_chars_delimited(a1, x, b1, y);
        assert(a =~= seq![a[0]] + a1);
        assert(b =~= seq![b[0]] + b1);
    }
}

/// A JSON string can be told from what follows it, and gives the text away.
pub proof fn lemma_json_string_delimited(a: Seq<char>, x: Seq<char>, b: Seq<char>, y: Seq<char>)
    requires
        json_string(a) + x == json_string(b) + y,
    ensures
        a == b,
        x == y,
{
    let q = seq!['"'];
    assert(json_string(a) + x =~= q + (json_chars(a) + (q + x)));
    assert(json_string(b) + y =~= q + (json_chars(b) + (q + y)));
    lemma_concat_split(q, json_chars(a) + (q + x), q, json_chars(b) + (q + y));
    lemma_json_chars_delimited(a, x, b, y);
}

/// The items of a list can be told from what follows its end.
proof fn lemma_joined_delimited<T>(
    code: spec_fn(T) -> Seq<char>,
    a: Seq<T>,
    x: Seq<char>,
    b: Seq<T>,
    y: Seq<char>,
)
    requires
        self_delimiting(code),
        starts_apart(code),
        joined(a.map_values(code)) + (seq![']'] + x) == joined(b.map_values(code)) + (seq![']'] + y),
    ensures
        a == b,
        x == y,
    decreases a.len(),
{
    let (end, comma) = (seq![']'], seq![',']);
    let (ca, cb) = (a.map_values(code), b.map_values(code));
    let (l, r) = (joined(ca) + (end + x), joined(cb) + (end + y));
    if a.len() == 0 && b.len() == 0 {
        assert(a =~= b);
        assert(l =~= end + x);
        assert(r =~= end + y);
        lemma_concat_split(end, x, end, y);
    } else if a.len() == 0 {
        assert(l[0] == ']');
        assert(r[0] == code(b[0])[0]);
    } else if b.len() == 0 {
        assert(r[0] == ']');
        assert(l[0] == code(a[0])[0]);
    } else {
        let (a1, b1) = (a.drop_first(), b.drop_first());
        assert(ca.drop_first() =~= a1.map_values(code));
        assert(cb.drop_first() =~= b1.map_values(code));
        let ra = if a.len() == 1 {
            end + x
        } else {
            comma + (joined(ca.drop_first()) + (end + x))
        };
        let rb = if b.len() == 1 {
            end + y
        } else {
            comma + (joined(cb.drop_first()) + (end + y))
        };
        assert(l =~= code(a[0]) + ra);
        assert(r =~= code(b[0]) + rb);
        assert(a[0] == b[0] && ra == rb);
        assert(ra[0] == (if a.len() == 1 {
            ']'
        } else {
            ','
        }));
        assert(rb[0] == (if b.len() == 1 {
            ']'
        } else {
            ','
        }));
        if a.len() == 1 {
            lemma_concat_split(end, x, end, y);
            assert(a =~= b);
        } else {
            lemma_concat_split(
                comma,
                joined(ca.drop_first()) + (end + x),
                comma,
                joined(cb.drop_first()) + (end + y),
            );
            lemma_joined_delimited(code, a1, x, b1, y);
            assert(a =~= seq![a[0]] + a1);
            assert(b =~= seq![b[0]] + b1);
        }
    }
}

/// A JSON list can be told from what follows it, and gives its items away, where
/// the code of an item does.
pub proof fn lemma_json_list_delimited<T>(
    code: spec_fn(T) -> Seq<char>,
    a: Seq<T>,
    x: Seq<char>,
    b: Seq<T>,
    y: Seq<char>,
)
    requires
        self_delimiting(code),
        starts_apart(code),
        json_list(a.map_values(code)) + x == json_list(b.map_values(code)) + y,
    ensures
        a == b,
        x == y,
{
    let (open, end) = (seq!['['], seq![']']);
    let (ja, jb) = (joined(a.map_values(code)), joined(b.map_values(code)));
    assert(json_list(a.map_values(code)) + x =~= open + (ja + (end + x)));
    assert(json_list(b.map_values(code)) + y =~= open + (jb + (end + y)));
    lemma_concat_split(open, ja + (end + x), open, jb + (end + y));
    lemma_joined_delimited(code, a, x, b, y);
}

/// A JSON list of strings can be told from what follows it, and gives the
/// strings away.
pub proof fn lemma_json_strings_delimited(
    a: Seq<Seq<char>>,
    x: Seq<char>,
    b: Seq<Seq<char>>,
    y: Seq<char>,
)
    requires
        json_strings(a) + x == json_strings(b) + y,
    ensures
        a == b,
        x == y,
{
    let code = |s: Seq<char>| json_string(s);
    assert forall|p: Seq<char>, u: Seq<char>, q: Seq<char>, v: Seq<char>|
        #[trigger] (code(p) + u) == #[trigger] (code(q) + v) implies p == q && u == v by {
        lemma_json_string_delimited(p, u, q, v);
    }
    lemma_json_list_delimited(code, a, x, b, y);
}

/// The code that a JSON list of strings is.
pub proof fn lemma_json_strings_self_delimiting()
    ensures
        self_delimiting(|s: Seq<Seq<char>>| json_strings(s)),
        starts_apart(|s: Seq<Seq<char>>| json_strings(s)),
        self_delimiting(|s: Seq<char>| json_string(s)),
        starts_apart(|s: Seq<char>| json_string(s)),
{
    let one = |s: Seq<char>| json_string(s);
    let list = |s: Seq<Seq<char>>| json_strings(s);
    assert forall|p: Seq<char>, u: Seq<char>, q: Seq<char>, v: Seq<char>|
        #[trigger] (one(p) + u) == #[trigger] (one(q) + v) implies p == q && u == v by {
        lemma_json_string_delimited(p, u, q, v);
    }
    assert forall|p: Seq<Seq<char>>, u: Seq<char>, q: Seq<Seq<char>>, v: Seq<char>|
        #[trigger] (list(p) + u) == #[trigger] (list(q) + v) implies p == q && u == v by {
        lemma_json_strings_delimited(p, u, q, v);
    }
}

/// Texts with commas between them and an end behind them, grouped from the right.
pub open spec fn grouped(items: Seq<Seq<char>>, end: Seq<char>) -> Seq<char>
    decreases items.len(),
{
    if items.len() == 0 {
        end
    } else if items.len() == 1 {
        items[0] + end
    } else {
        items[0] + (seq![','] + grouped(items.drop_first(), end))
    }
}

/// Grouping from the right does not change a text.
pub proof fn lemma_joined_grouped(items: Seq<Seq<char>>, end: Seq<char>)
    ensures
        joined(items) + end == grouped(items, end),
    decreases items.len(),
{
    if items.len() > 1 {
        lemma_joined_grouped(items.drop_first(), end);
        assert(joined(items) + end =~= items[0] + (seq![','] + (joined(items.drop_first()) + end)));
    } else {
        assert(joined(items) + end =~= grouped(items, end));
    }
}

/// The fields of an object from some field on, its end, and what follows it.
pub open spec fn fields_then(fields: Seq<Seq<char>>, x: Seq<char>) -> Seq<char> {
    grouped(fields, seq!['}'] + x)
}

/// What follows field `i` of an object.
pub open spec fn after_field(fields: Seq<Seq<char>>, i: int, x: Seq<char>) -> Seq<char> {
    if i + 1 >= fields.len() {
        seq!['}'] + x
    } else {
        seq![','] + fields_then(fields.skip(i + 1), x)
    }
}

/// An object with what follows it, grouped from the right.
pub proof fn lemma_object_then(fields: Seq<Seq<char>>, x: Seq<char>)
    ensures
        json_object(fields) + x == seq!['{'] + fields_then(fields, x),
{
    lemma_joined_grouped(fields, seq!['}'] + x);
    assert(json_object(fields) + x =~= seq!['{'] + (joined(fields) + (seq!['}'] + x)));
}

/// The fields from one on are that field and what follows it.
proof fn lemma_field_step(fields: Seq<Seq<char>>, i: int, x: Seq<char>)
    requires
        0 <= i < fields.len(),
    ensures
        fields_then(fields.skip(i), x) == fields[i] + after_field(fields, i, x),
{
    assert(fields.skip(i).drop_first() =~= fields.skip(i + 1));
}

/// Where two objects agree from a field on, and that field has one key and a
/// value whose code is self-delimiting, the values agree, and so does the rest.
pub proof fn lemma_coded_field<T>(
    code: spec_fn(T) -> Seq<char>,
    fa: Seq<Seq<char>>,
    fb: Seq<Seq<char>>,
    i: int,
    key: Seq<char>,
    a: T,
    b: T,
    x: Seq<char>,
    y: Seq<char>,
)
    requires
        self_delimiting(code),
        0 <= i < fa.len() == fb.len(),
        fields_then(fa.skip(i), x) == fields_then(fb.skip(i), y),
        fa[i] == json_field(key, code(a)),
        fb[i] == json_field(key, code(b)),
    ensures
        a == b,
        i + 1 < fa.len() ==> fields_then(fa.skip(i + 1), x) == fields_then(fb.skip(i + 1), y),
        i + 1 == fa.len() ==> x == y,
{
    lemma_field_step(fa, i, x);
    lemma_field_step(fb, i, y);
    let head = json_string(key) + seq![':'];
    let (ra, rb) = (after_field(fa, i, x), after_field(fb, i, y));
    assert(fa[i] + ra =~= head + (code(a) + ra));
    assert(fb[i] + rb =~= head + (code(b) + rb));
    lemma_concat_split(head, code(a) + ra, head, code(b) + rb);
    lemma_after_field(fa, fb, i, x, y);
}

/// What is said of [`lemma_coded_field`], for a string.
pub proof fn lemma_string_field(
    fa: Seq<Seq<char>>,
    fb: Seq<Seq<char>>,
    i: int,
    key: Seq<char>,
    a: Seq<char>,
    b: Seq<char>,
    x: Seq<char>,
    y: Seq<char>,
)
    requires
        0 <= i < fa.len() == fb.len(),
        fields_then(fa.skip(i), x) == fields_then(fb.skip(i), y),
        fa[i] == json_field(key, json_string(a)),
        fb[i] == json_field(key, json_string(b)),
    ensures
        a == b,
        i + 1 < fa.len() ==> fields_then(fa.skip(i + 1), x) == fields_then(fb.skip(i + 1), y),
        i + 1 == fa.len() ==> x == y,
{
    lemma_json_strings_self_delimiting();
    lemma_coded_field(|s: Seq<char>| json_string(s), fa, fb, i, key, a, b, x, y);
}

/// What is said of [`lemma_coded_field`], for a number.
pub proof fn lemma_number_field(
    fa: Seq<Seq<char>>,
    fb: Seq<Seq<char>>,
    i: int,
    key: Seq<char>,
    a: nat,
    b: nat,
    x: Seq<char>,
    y: Seq<char>,
)
    requires
        0 <= i < fa.len() == fb.len(),
        fields_then(fa.skip(i), x) == fields_then(fb.skip(i), y),
        fa[i] == json_field(key, decimal(a)),
        fb[i] == json_field(key, decimal(b)),
    ensures
        a == b,
        i + 1 < fa.len() ==> fields_then(fa.skip(i + 1), x) == fields_then(fb.skip(i + 1), y),
        i + 1 == fa.len() ==> x == y,
{
    lemma_field_step(fa, i, x);
    lemma_field_step(fb, i, y);
    let head = json_string(key) + seq![':'];
    let (ra, rb) = (after_field(fa, i, x), after_field(fb, i, y));
    assert(fa[i] + ra =~= head + (decimal(a) + ra));
    assert(fb[i] + rb =~= head + (decimal(b) + rb));
    lemma_concat_split(head, decimal(a) + ra, head, decimal(b) + rb);
    lemma_decimal_delimited(a, ra, b, rb);
    lemma_after_field(fa, fb, i, x, y);
}

/// Where what follows a field agrees, the next fields do, or the texts behind
/// the objects.
proof fn lemma_after_field(
    fa: Seq<Seq<char>>,
    fb: Seq<Seq<char>>,
    i: int,
    x: Seq<char>,
    y: Seq<char>,
)
    requires
        0 <= i < fa.len() == fb.len(),
        after_field(fa, i, x) == after_field(fb, i, y),
    ensures
        i + 1 < fa.len() ==> fields_then(fa.skip(i + 1), x) == fields_then(fb.skip(i + 1), y),
        i + 1 == fa.len() ==> x == y,
{
    if i + 1 < fa.len() {
        lemma_concat_split(
            seq![','],
            fields_then(fa.skip(i + 1), x),
            seq![','],
            fields_then(fb.skip(i + 1), y),
        );
    } else {
        lemma_concat_split(seq!['}'], x, seq!['}'], y);
    }
}

/// Where two objects agree with what follows them, their fields do.
pub proof fn lemma_objects_agree(
    fa: Seq<Seq<char>>,
    x: Seq<char>,
    fb: Seq<Seq<char>>,
    y: Seq<char>,
)
    requires
        json_object(fa) + x == json_object(fb) + y,
    ensures
        fields_then(fa.skip(0), x) == fields_then(fb.skip(0), y),
{
    lemma_object_then(fa, x);
    lemma_object_then(fb, y);
    lemma_concat_split(seq!['{'], fields_then(fa, x), seq!['{'], fields_then(fb, y));
    assert(fa.skip(0) =~= fa);
    assert(fb.skip(0) =~= fb);
}

/// A list is its items in brackets, with a comma and nothing else between them.
pub proof fn law_json_list_grows(items: Seq<Seq<char>>, item: Seq<char>)
    ensures
        json_list(Seq::empty()) == seq!['[', ']'],
        json_list(seq![item]) == seq!['['] + item + seq![']'],
        items.len() > 0 ==> json_list(items.push(item)) == json_list(items).drop_last() + seq![',']
            + item + seq![']'],
{
    lemma_joined_push(items, item);
    assert(json_list(Seq::empty()) =~= seq!['[', ']']);
    assert(seq![item] =~= Seq::<Seq<char>>::empty().push(item));
    lemma_joined_push(Seq::empty(), item);
    assert(json_list(items).drop_last() =~= seq!['['] + joined(items));
    if items.len() > 0 {
        assert(json_list(items.push(item)) =~= json_list(items).drop_last() + seq![','] + item
            + seq![']']);
    }
}

/// An object is its fields in braces, with a comma and nothing else between them.
pub proof fn law_json_object_grows(fields: Seq<Seq<char>>, field: Seq<char>)
    ensures
        json_object(Seq::empty()) == seq!['{', '}'],
        json_object(seq![field]) == seq!['{'] + field + seq!['}'],
        fields.len() > 0 ==> json_object(fields.push(field)) == json_object(fields).drop_last()
            + seq![','] + field + seq!['}'],
{
    lemma_joined_push(fields, field);
    assert(json_object(Seq::empty()) =~= seq!['{', '}']);
    assert(seq![field] =~= Seq::<Seq<char>>::empty().push(field));
    lemma_joined_push(Seq::empty(), field);
    assert(json_object(fields).drop_last() =~= seq!['{'] + joined(fields));
    if fields.len() > 0 {
        assert(json_object(fields.push(field)) =~= json_object(fields).drop_last() + seq![',']
            + field + seq!['}']);
    }
}

} // verus!
