//! The code generator behind the `template` attribute.
//!
//! The attribute is placed on a struct whose named fields are all of type
//! `String`.  It emits the struct unchanged, a `<Name>Builder` that registers a
//! JavaScript builder function taking two arguments (pointer and length) per
//! field, and an implementation of `lit_html::Template` that passes the fields
//! to that builder.

use vstd::prelude::*;
use crate::text::{
    all_digits, decimal, decimal_text, is_digit, join_offset, joined, join_texts,
    law_decimal_denotes, law_joined_layout, law_joined_separators, numeral_value, occurrences,
    texts_view,
};

verus! {

/// A named field of the annotated struct: its name and the text of its type.
#[derive(Debug, PartialEq, Eq)]
pub struct FieldDecl {
    pub name: String,
    pub ty: String,
}

/// The parts of the annotated struct that the generator reads.  `fields` is
/// `None` for a tuple or unit struct.
#[derive(Debug, PartialEq, Eq)]
pub struct StructDecl {
    pub name: String,
    pub fields: Option<Vec<FieldDecl>>,
}

/// The mathematical view of a `StructDecl`.
pub struct StructShape {
    pub name: Seq<char>,
    pub fields: Option<Seq<(Seq<char>, Seq<char>)>>,
}

pub open spec fn field_view(f: FieldDecl) -> (Seq<char>, Seq<char>) {
    (f.name@, f.ty@)
}

impl View for StructDecl {
    type V = StructShape;

    open spec fn view(&self) -> StructShape {
        StructShape {
            name: self.name@,
            fields: match self.fields {
                Some(v) => Some(v@.map_values(|f: FieldDecl| field_view(f))),
                None => None,
            },
        }
    }
}

/// Why the attribute rejects its input.
#[derive(Debug, PartialEq, Eq)]
pub enum TemplateError {
    /// The input is not a struct; the text is the parser's message.
    Malformed(String),
    /// A field has a type other than `String`.
    UnsupportedType,
    /// More fields than the argument counter can number.
    TooManyFields,
}

/// What `syn` 2.0.119, lexing and printing with proc-macro2's own (fallback)
/// implementation, makes of a struct's source text: its name and named fields,
/// each field's type printed back as tokens, or the parser's error message.
pub uninterp spec fn syn_struct(src: Seq<char>) -> Result<StructShape, Seq<char>>;

/// Parses `src` as a struct with `syn::parse_str::<syn::ItemStruct>`, and turns
/// the result into plain strings: the identifier, and for named fields each
/// field's identifier and its type printed through `quote::ToTokens`.  It first
/// calls `proc_macro2::fallback::force()`, so that lexing and printing go
/// through proc-macro2's own implementation in every process, inside a
/// procedural macro or not; the result then depends on the text alone (as
/// long as no other thread calls `proc_macro2::fallback::unforce` meanwhile).
/// Once the result is plain strings it calls `proc_macro2::fallback::unforce()`,
/// which lets proc-macro2 go back to the compiler's implementation where one is
/// available.  syn 2 turns a literal it does not recognise into a verbatim
/// literal rather than panicking.  The contract only names the result
/// (`syn_struct`); what `syn` accepts and how it prints tokens is not stated.
#[verifier::external_body]
fn parse_struct(src: &str) -> (r: Result<StructDecl, String>)
    ensures
        match r {
            Ok(d) => syn_struct(src@) == Ok::<StructShape, Seq<char>>(d@),
            Err(m) => syn_struct(src@) == Err::<StructShape, Seq<char>>(m@),
        },
{
    proc_macro2::fallback::force();
    let r = match syn::parse_str::<syn::ItemStruct>(src) {
        Ok(item) => Ok(StructDecl { name: item.ident.to_string(), fields: match item.fields {
            syn::Fields::Named(n) => Some(n.named.iter().map(|f| FieldDecl {
                name: f.ident.as_ref().unwrap().to_string(),
                ty: quote::ToTokens::to_token_stream(&f.ty).to_string(),
            }).collect()),
            syn::Fields::Unnamed(_) | syn::Fields::Unit => None,
        } }),
        Err(e) => Err(e.to_string()),
    };
    proc_macro2::fallback::unforce();
    r
}

/// The one type the generator accepts for a field.
pub open spec fn text_type() -> Seq<char> {
    seq!['S', 't', 'r', 'i', 'n', 'g']
}

/// The fields the generator works on: the named fields, or none.
pub open spec fn shape_fields(s: StructShape) -> Seq<(Seq<char>, Seq<char>)> {
    match s.fields {
        Some(f) => f,
        None => Seq::empty(),
    }
}

/// Every field is a `String`.
pub open spec fn all_text_fields(fields: Seq<(Seq<char>, Seq<char>)>) -> bool {
    forall|i: int| 0 <= i < fields.len() ==> #[trigger] fields[i].1 == text_type()
}

/// The name of the `k`-th argument of the builder function: `a<k>`.
pub open spec fn arg_name(k: nat) -> Seq<char> {
    seq!['a'] + decimal(k)
}

/// The builder's parameter list for `n` fields: `a0,a1,...,a<2n-1>`.
pub open spec fn arg_list(n: nat) -> Seq<char> {
    joined(Seq::new(2 * n, |k: int| arg_name(k as nat)), seq![','])
}

/// The JavaScript line that decodes field `f`, the `i`-th field.
pub open spec fn extractor(f: Seq<char>, i: nat) -> Seq<char> {
    "const "@ + f + " = this.readUtf8FromMemory("@ + arg_name(2 * i) + seq![','] + arg_name(
        2 * i + 1,
    ) + ");"@
}

/// The Rust lines that pass field `f`, the `i`-th field, as pointer and length.
pub open spec fn executor(f: Seq<char>, i: nat) -> Seq<char> {
    "let "@ + arg_name(2 * i) + " = self."@ + f + ".as_ptr() as u32;\nlet "@ + arg_name(2 * i + 1)
        + " = self."@ + f + ".len() as u32;"@
}

pub open spec fn extractors(fields: Seq<(Seq<char>, Seq<char>)>) -> Seq<char> {
    joined(Seq::new(fields.len(), |i: int| extractor(fields[i].0, i as nat)), seq!['\n'])
}

pub open spec fn executors(fields: Seq<(Seq<char>, Seq<char>)>) -> Seq<char> {
    joined(Seq::new(fields.len(), |i: int| executor(fields[i].0, i as nat)), seq!['\n'])
}

/// The fixed text between the generated parts; `frame(k)` precedes the `k`-th part.
pub open spec fn frame(k: int) -> Seq<char> {
    if k == 0 { FRAME_0@ }
    else if k == 1 { FRAME_1@ }
    else if k == 2 { FRAME_2@ }
    else if k == 3 { FRAME_3@ }
    else if k == 4 { FRAME_4@ }
    else if k == 5 { FRAME_5@ }
    else if k == 6 { FRAME_6@ }
    else if k == 7 { FRAME_7@ }
    else if k == 8 { FRAME_8@ }
    else if k == 9 { FRAME_9@ }
    else if k == 10 { FRAME_10@ }
    else if k == 11 { FRAME_11@ }
    else { FRAME_12@ }
}

pub const FRAME_0: &'static str = "\n    ";
pub const FRAME_1: &'static str = "\n    \n    struct ";
pub const FRAME_2: &'static str = "Builder {\n        fn_builder: lit_html::js::JSInvoker,\n    }\n    \n    impl Default for ";
pub const FRAME_3: &'static str = "Builder {\n        fn default() -> Self {\n            let mut fn_text = &[\"function builder(\",\"";
pub const FRAME_4: &'static str = "\",\"){\\n\",\"";
pub const FRAME_5: &'static str = "\",\"const result = window.LitHtml.html`\",";
pub const FRAME_6: &'static str = ",\"`;\\nreturn this.storeObject(result);\\n}\"].join(\"\");\n            ";
pub const FRAME_7: &'static str = "Builder {\n                fn_builder: lit_html::js::register_function(&fn_text),\n            }\n        }\n    }\n    \n    impl lit_html::Template for ";
pub const FRAME_8: &'static str = " {\n        fn execute(&self) -> f64 {\n            let builder = globals::get::<";
pub const FRAME_9: &'static str = "Builder>();\n            ";
pub const FRAME_10: &'static str = "\n            builder.fn_builder.invoke_";
pub const FRAME_11: &'static str = "(";
pub const FRAME_12: &'static str = ")\n        }\n    }\n    ";

/// The whole generated text for a struct named `name` with the given fields,
/// the template expression `template_exp` and the struct's own text `original`.
pub open spec fn expansion(
    template_exp: Seq<char>,
    original: Seq<char>,
    name: Seq<char>,
    fields: Seq<(Seq<char>, Seq<char>)>,
) -> Seq<char> {
    frame(0) + original + frame(1) + name + frame(2) + name + frame(3) + arg_list(fields.len())
        + frame(4) + extractors(fields) + frame(5) + template_exp + frame(6) + name + frame(7)
        + name + frame(8) + name + frame(9) + executors(fields) + frame(10) + decimal(
        2 * fields.len(),
    ) + frame(11) + arg_list(fields.len()) + frame(12)
}

/// The attribute keeps the annotated struct as written: the generated text
/// starts with the struct's own text (after a line break and indentation).
pub proof fn law_struct_kept(
    template_exp: Seq<char>,
    original: Seq<char>,
    name: Seq<char>,
    fields: Seq<(Seq<char>, Seq<char>)>,
)
    ensures
        expansion(template_exp, original, name, fields).take((frame(0).len() + original.len()) as int)
            == frame(0) + original,
{
    let e = expansion(template_exp, original, name, fields);
    let k: int = (frame(0).len() + original.len()) as int;
    assert(e.take(k) =~= frame(0) + original);
}

/// The template expression is copied into the builder unchanged: it stands,
/// character for character, right after the builder's fixed text up to
/// ``html` `` and its quoted pieces, and the text around it does not depend on
/// it.
pub proof fn law_template_verbatim(
    t: Seq<char>,
    t2: Seq<char>,
    original: Seq<char>,
    name: Seq<char>,
    fields: Seq<(Seq<char>, Seq<char>)>,
)
    ensures
        ({
            let n = fields.len();
            let head = frame(0) + original + frame(1) + name + frame(2) + name + frame(3)
                + arg_list(n) + frame(4) + extractors(fields) + frame(5);
            let k = head.len() as int;
            let x = expansion(t, original, name, fields);
            let y = expansion(t2, original, name, fields);
            &&& x.subrange(k, k + t.len()) == t
            &&& x.take(k) == y.take(k)
            &&& x.subrange(k + t.len(), x.len() as int) == y.subrange(k + t2.len(), y.len() as int)
        }),
{
    let n = fields.len();
    let head = frame(0) + original + frame(1) + name + frame(2) + name + frame(3) + arg_list(n)
        + frame(4) + extractors(fields) + frame(5);
    let tail = frame(6) + name + frame(7) + name + frame(8) + name + frame(9) + executors(fields)
        + frame(10) + decimal(2 * n) + frame(11) + arg_list(n) + frame(12);
    let x = expansion(t, original, name, fields);
    let y = expansion(t2, original, name, fields);
    assert(x =~= head + t + tail);
    assert(y =~= head + t2 + tail);
    let k = head.len() as int;
    assert(x.subrange(k, k + t.len()) =~= t);
    assert(x.take(k) =~= head);
    assert(y.take(k) =~= head);
    assert(x.subrange(k + t.len(), x.len() as int) =~= tail);
    assert(y.subrange(k + t2.len(), y.len() as int) =~= tail);
}

/// The builder is invoked with as many arguments as it is passed: the text
/// between ``invoke_`` and the argument list is a numeral for `2n`, where `n`
/// is the number of fields, and the argument list that follows names `2n`
/// arguments (see `law_argument_count`).
pub proof fn law_invoke_arity(
    t: Seq<char>,
    original: Seq<char>,
    name: Seq<char>,
    fields: Seq<(Seq<char>, Seq<char>)>,
)
    ensures
        ({
            let n = fields.len();
            let before = frame(0) + original + frame(1) + name + frame(2) + name + frame(3)
                + arg_list(n) + frame(4) + extractors(fields) + frame(5) + t + frame(6) + name
                + frame(7) + name + frame(8) + name + frame(9) + executors(fields) + frame(10);
            let after = frame(11) + arg_list(n) + frame(12);
            let x = expansion(t, original, name, fields);
            let count = x.subrange(before.len() as int, x.len() - after.len());
            &&& x.len() >= before.len() + after.len()
            &&& x.take(before.len() as int) == before
            &&& x.subrange(x.len() - after.len(), x.len() as int) == after
            &&& count.len() >= 1
            &&& all_digits(count)
            &&& numeral_value(count) == 2 * n
        }),
{
    let n = fields.len();
    let before = frame(0) + original + frame(1) + name + frame(2) + name + frame(3) + arg_list(n)
        + frame(4) + extractors(fields) + frame(5) + t + frame(6) + name + frame(7) + name + frame(
        8,
    ) + name + frame(9) + executors(fields) + frame(10);
    let after = frame(11) + arg_list(n) + frame(12);
    let x = expansion(t, original, name, fields);
    let d = decimal(2 * n);
    assert(x =~= before + d + after);
    law_decimal_denotes(2 * n);
    assert(x.take(before.len() as int) =~= before);
    assert(x.subrange(x.len() - after.len(), x.len() as int) =~= after);
    assert(x.subrange(before.len() as int, x.len() - after.len()) =~= d);
}

/// The piece `b` of `a + b + c` starts where `a` ends.
proof fn lemma_middle(a: Seq<char>, b: Seq<char>, c: Seq<char>)
    ensures
        (a + b + c).subrange(a.len() as int, (a.len() + b.len()) as int) == b,
{
    assert((a + b + c).subrange(a.len() as int, (a.len() + b.len()) as int) =~= b);
}

/// A string of digits holds no comma.
proof fn lemma_digits_no_comma(s: Seq<char>)
    requires
        all_digits(s),
    ensures
        occurrences(s, ',') == 0,
    decreases s.len(),
{
    if s.len() > 0 {
        assert forall|i: int| 0 <= i < s.drop_last().len() implies #[trigger] is_digit(
            s.drop_last()[i],
        ) by {
            assert(s.drop_last()[i] == s[i]);
        }
        lemma_digits_no_comma(s.drop_last());
        assert(is_digit(s[s.len() - 1]));
    }
}

/// The `k`-th argument is named `a` followed by a numeral for `k`, and its
/// name holds no comma.
pub proof fn law_argument_name(k: nat)
    ensures
        arg_name(k).len() >= 2,
        arg_name(k)[0] == 'a',
        all_digits(arg_name(k).drop_first()),
        numeral_value(arg_name(k).drop_first()) == k,
        occurrences(arg_name(k), ',') == 0,
{
    law_decimal_denotes(k);
    assert(arg_name(k).drop_first() =~= decimal(k));
    lemma_digits_no_comma(decimal(k));
    crate::text::lemma_occurrences_concat(seq!['a'], decimal(k), ',');
    assert(seq!['a'].drop_last() =~= Seq::<char>::empty());
    assert(occurrences(Seq::<char>::empty(), ',') == 0);
    assert(occurrences(seq!['a'], ',') == 0);
}

/// The builder's parameter list for `n` fields names `2n` arguments: it is
/// empty for no field, and otherwise holds `2n - 1` separating commas.
pub proof fn law_argument_count(n: nat)
    ensures
        n == 0 ==> arg_list(n).len() == 0,
        n > 0 ==> occurrences(arg_list(n), ',') + 1 == 2 * n,
{
    let names = Seq::new(2 * n, |k: int| arg_name(k as nat));
    if n > 0 {
        assert forall|i: int| 0 <= i < names.len() implies occurrences(#[trigger] names[i], ',')
            == 0 by {
            law_argument_name(i as nat);
        }
        assert(seq![','].drop_last() =~= Seq::<char>::empty());
        assert(occurrences(Seq::<char>::empty(), ',') == 0);
        assert(occurrences(seq![','], ',') == 1);
        law_joined_separators(names, seq![','], ',');
    }
}

/// The parameter list names the arguments `a0`, `a1`, ... in increasing order:
/// the `k`-th name is `arg_name(k)`, at its place in the comma-separated list.
pub proof fn law_argument_list_in_order(n: nat)
    requires
        n >= 1,
    ensures
        ({
            let names = Seq::new(2 * n, |k: int| arg_name(k as nat));
            &&& forall|k: int|
                0 <= k < 2 * n ==> #[trigger] arg_list(n).subrange(
                    join_offset(names, seq![','], k),
                    join_offset(names, seq![','], k) + arg_name(k as nat).len(),
                ) == arg_name(k as nat)
            &&& forall|k: int|
                0 <= k < 2 * n - 1 ==> #[trigger] arg_list(n).subrange(
                    join_offset(names, seq![','], k) + arg_name(k as nat).len(),
                    join_offset(names, seq![','], k + 1),
                ) == seq![',']
        }),
{
    let names = Seq::new(2 * n, |k: int| arg_name(k as nat));
    law_joined_layout(names, seq![',']);
    assert forall|k: int| 0 <= k < 2 * n implies #[trigger] arg_list(n).subrange(
        join_offset(names, seq![','], k),
        join_offset(names, seq![','], k) + arg_name(k as nat).len(),
    ) == arg_name(k as nat) by {
        assert(names[k] == arg_name(k as nat));
    }
    assert forall|k: int| 0 <= k < 2 * n - 1 implies #[trigger] arg_list(n).subrange(
        join_offset(names, seq![','], k) + arg_name(k as nat).len(),
        join_offset(names, seq![','], k + 1),
    ) == seq![','] by {
        assert(names[k] == arg_name(k as nat));
    }
}

/// The builder decodes the fields in order, one line each: the `i`-th line of
/// the decoding block is the decoding line of the `i`-th field (see
/// `law_decoder_declares_field`), and the lines are separated by line breaks.
pub proof fn law_decoders_in_order(fields: Seq<(Seq<char>, Seq<char>)>)
    requires
        fields.len() >= 1,
    ensures
        ({
            let lines = Seq::new(fields.len(), |i: int| extractor(fields[i].0, i as nat));
            &&& forall|i: int|
                0 <= i < fields.len() ==> #[trigger] extractors(fields).subrange(
                    join_offset(lines, seq!['\n'], i),
                    join_offset(lines, seq!['\n'], i) + extractor(fields[i].0, i as nat).len(),
                ) == extractor(fields[i].0, i as nat)
            &&& forall|i: int|
                0 <= i < fields.len() - 1 ==> #[trigger] extractors(fields).subrange(
                    join_offset(lines, seq!['\n'], i) + extractor(fields[i].0, i as nat).len(),
                    join_offset(lines, seq!['\n'], i + 1),
                ) == seq!['\n']
        }),
{
    let lines = Seq::new(fields.len(), |i: int| extractor(fields[i].0, i as nat));
    law_joined_layout(lines, seq!['\n']);
    assert forall|i: int| 0 <= i < fields.len() implies #[trigger] extractors(fields).subrange(
        join_offset(lines, seq!['\n'], i),
        join_offset(lines, seq!['\n'], i) + extractor(fields[i].0, i as nat).len(),
    ) == extractor(fields[i].0, i as nat) by {
        assert(lines[i] == extractor(fields[i].0, i as nat));
    }
    assert forall|i: int| 0 <= i < fields.len() - 1 implies #[trigger] extractors(fields).subrange(
        join_offset(lines, seq!['\n'], i) + extractor(fields[i].0, i as nat).len(),
        join_offset(lines, seq!['\n'], i + 1),
    ) == seq!['\n'] by {
        assert(lines[i] == extractor(fields[i].0, i as nat));
    }
}

/// `execute` passes the fields in order, two lines each: the `i`-th block of
/// the passing lines is that of the `i`-th field (see
/// `law_executor_reads_field`), separated by line breaks.
pub proof fn law_executors_in_order(fields: Seq<(Seq<char>, Seq<char>)>)
    requires
        fields.len() >= 1,
    ensures
        ({
            let lines = Seq::new(fields.len(), |i: int| executor(fields[i].0, i as nat));
            &&& forall|i: int|
                0 <= i < fields.len() ==> #[trigger] executors(fields).subrange(
                    join_offset(lines, seq!['\n'], i),
                    join_offset(lines, seq!['\n'], i) + executor(fields[i].0, i as nat).len(),
                ) == executor(fields[i].0, i as nat)
            &&& forall|i: int|
                0 <= i < fields.len() - 1 ==> #[trigger] executors(fields).subrange(
                    join_offset(lines, seq!['\n'], i) + executor(fields[i].0, i as nat).len(),
                    join_offset(lines, seq!['\n'], i + 1),
                ) == seq!['\n']
        }),
{
    let lines = Seq::new(fields.len(), |i: int| executor(fields[i].0, i as nat));
    law_joined_layout(lines, seq!['\n']);
    assert forall|i: int| 0 <= i < fields.len() implies #[trigger] executors(fields).subrange(
        join_offset(lines, seq!['\n'], i),
        join_offset(lines, seq!['\n'], i) + executor(fields[i].0, i as nat).len(),
    ) == executor(fields[i].0, i as nat) by {
        assert(lines[i] == executor(fields[i].0, i as nat));
    }
    assert forall|i: int| 0 <= i < fields.len() - 1 implies #[trigger] executors(fields).subrange(
        join_offset(lines, seq!['\n'], i) + executor(fields[i].0, i as nat).len(),
        join_offset(lines, seq!['\n'], i + 1),
    ) == seq!['\n'] by {
        assert(lines[i] == executor(fields[i].0, i as nat));
    }
}

/// The builder declares each field under the field's own name: the decoding
/// line for field `f` starts with `const `, then `f` character for character,
/// then ` = this.readUtf8FromMemory(`, then the field's two arguments
/// `a<2i>` and `a<2i+1>` separated by a comma, then `);`.
pub proof fn law_decoder_declares_field(f: Seq<char>, i: nat)
    ensures
        ({
            let e = extractor(f, i);
            let p = "const "@.len();
            let q = p + f.len();
            let r = q + " = this.readUtf8FromMemory("@.len();
            let s = r + arg_name(2 * i).len();
            let t = s + 1 + arg_name(2 * i + 1).len();
            &&& e.subrange(0, p as int) == "const "@
            &&& e.subrange(p as int, q as int) == f
            &&& e.subrange(q as int, r as int) == " = this.readUtf8FromMemory("@
            &&& e.subrange(r as int, s as int) == arg_name(2 * i)
            &&& e[s as int] == ','
            &&& e.subrange((s + 1) as int, t as int) == arg_name(2 * i + 1)
            &&& e.subrange(t as int, e.len() as int) == ");"@
        }),
{
    let e = extractor(f, i);
    let c = "const "@;
    let m = " = this.readUtf8FromMemory("@;
    let a = arg_name(2 * i);
    let b = arg_name(2 * i + 1);
    let z = ");"@;
    assert(e =~= c + f + m + a + seq![','] + b + z);
    lemma_middle(Seq::empty(), c, f + m + a + seq![','] + b + z);
    assert(e.subrange(0, c.len() as int) =~= c);
    lemma_middle(c, f, m + a + seq![','] + b + z);
    assert(e.subrange(c.len() as int, (c.len() + f.len()) as int) =~= f);
    assert(e.subrange((c.len() + f.len()) as int, (c.len() + f.len() + m.len()) as int) =~= m);
    assert(e.subrange(
        (c.len() + f.len() + m.len()) as int,
        (c.len() + f.len() + m.len() + a.len()) as int,
    ) =~= a);
    assert(e.subrange(
        (c.len() + f.len() + m.len() + a.len() + 1) as int,
        (c.len() + f.len() + m.len() + a.len() + 1 + b.len()) as int,
    ) =~= b);
    assert(e.subrange(
        (c.len() + f.len() + m.len() + a.len() + 1 + b.len()) as int,
        e.len() as int,
    ) =~= z);
}

/// The lines that pass field `f` read the field itself: `let a<2i> = self.`,
/// then `f` character for character, then `.as_ptr() as u32;` and a line
/// break, then `let a<2i+1> = self.`, `f` again, and `.len() as u32;`.
pub proof fn law_executor_reads_field(f: Seq<char>, i: nat)
    ensures
        ({
            let e = executor(f, i);
            let a = arg_name(2 * i);
            let b = arg_name(2 * i + 1);
            let p1 = "let "@.len() + a.len() + " = self."@.len();
            let q1 = p1 + f.len();
            let p2 = q1 + ".as_ptr() as u32;\nlet "@.len() + b.len() + " = self."@.len();
            let q2 = p2 + f.len();
            &&& e.subrange(0, "let "@.len() as int) == "let "@
            &&& e.subrange("let "@.len() as int, ("let "@.len() + a.len()) as int) == a
            &&& e.subrange(("let "@.len() + a.len()) as int, p1 as int) == " = self."@
            &&& e.subrange(p1 as int, q1 as int) == f
            &&& e.subrange(q1 as int, (q1 + ".as_ptr() as u32;\nlet "@.len()) as int)
                == ".as_ptr() as u32;\nlet "@
            &&& e.subrange(
                (q1 + ".as_ptr() as u32;\nlet "@.len()) as int,
                (q1 + ".as_ptr() as u32;\nlet "@.len() + b.len()) as int,
            ) == b
            &&& e.subrange(p2 as int, q2 as int) == f
            &&& e.subrange(q2 as int, e.len() as int) == ".len() as u32;"@
        }),
{
    let e = executor(f, i);
    let l = "let "@;
    let a = arg_name(2 * i);
    let m = " = self."@;
    let p = ".as_ptr() as u32;\nlet "@;
    let b = arg_name(2 * i + 1);
    let z = ".len() as u32;"@;
    assert(e =~= l + a + m + f + p + b + m + f + z);
    let p1 = l.len() + a.len() + m.len();
    let q1 = p1 + f.len();
    let p2 = q1 + p.len() + b.len() + m.len();
    let q2 = p2 + f.len();
    assert(e.subrange(0, l.len() as int) =~= l);
    assert(e.subrange(l.len() as int, (l.len() + a.len()) as int) =~= a);
    assert(e.subrange((l.len() + a.len()) as int, p1 as int) =~= m);
    assert(e.subrange(p1 as int, q1 as int) =~= f);
    assert(e.subrange(q1 as int, (q1 + p.len()) as int) =~= p);
    assert(e.subrange((q1 + p.len()) as int, (q1 + p.len() + b.len()) as int) =~= b);
    assert(e.subrange(p2 as int, q2 as int) =~= f);
    assert(e.subrange(q2 as int, e.len() as int) =~= z);
}

fn frame_text(k: usize) -> (s: &'static str)
    requires
        k <= 12,
    ensures
        s@ == frame(k as int),
{
    match k {
        0 => FRAME_0,
        1 => FRAME_1,
        2 => FRAME_2,
        3 => FRAME_3,
        4 => FRAME_4,
        5 => FRAME_5,
        6 => FRAME_6,
        7 => FRAME_7,
        8 => FRAME_8,
        9 => FRAME_9,
        10 => FRAME_10,
        11 => FRAME_11,
        _ => FRAME_12,
    }
}

fn arg_name_text(k: usize) -> (s: String)
    ensures
        s@ == arg_name(k as nat),
{
    proof {
        reveal_strlit("a");
    }
    let mut s = String::from_str("a");
    let d = decimal_text(k);
    s.append(d.as_str());
    s
}

fn extractor_line(f: &String, i: usize) -> (s: String)
    requires
        2 * i + 1 <= usize::MAX,
    ensures
        s@ == extractor(f@, i as nat),
{
    proof {
        reveal_strlit(",");
    }
    let a = arg_name_text(2 * i);
    let b = arg_name_text(2 * i + 1);
    let mut s = String::from_str("const ");
    s.append(f.as_str());
    s.append(" = this.readUtf8FromMemory(");
    s.append(a.as_str());
    s.append(",");
    s.append(b.as_str());
    s.append(");");
    s
}

fn executor_line(f: &String, i: usize) -> (s: String)
    requires
        2 * i + 1 <= usize::MAX,
    ensures
        s@ == executor(f@, i as nat),
{
    let a = arg_name_text(2 * i);
    let b = arg_name_text(2 * i + 1);
    let mut s = String::from_str("let ");
    s.append(a.as_str());
    s.append(" = self.");
    s.append(f.as_str());
    s.append(".as_ptr() as u32;\nlet ");
    s.append(b.as_str());
    s.append(" = self.");
    s.append(f.as_str());
    s.append(".len() as u32;");
    s
}

/// Generates the expansion of the attribute for the parsed struct `decl`, whose
/// source text is `original`, with the template expression `template_exp`.
/// It fails exactly when some named field is not a `String`.
pub fn expand(template_exp: &str, original: &str, decl: &StructDecl) -> (r: Result<
    String,
    TemplateError,
>)
    requires
        shape_fields(decl@).len() <= usize::MAX / 2,
    ensures
        r is Ok <==> all_text_fields(shape_fields(decl@)),
        r matches Ok(s) ==> s@ == expansion(
            template_exp@,
            original@,
            decl@.name,
            shape_fields(decl@),
        ),
        r matches Err(e) ==> e is UnsupportedType,
{
    let empty: Vec<FieldDecl> = Vec::new();
    let fields: &Vec<FieldDecl> = match &decl.fields {
        Some(v) => v,
        None => &empty,
    };
    let ghost shape = shape_fields(decl@);
    assert(shape =~= fields@.map_values(|f: FieldDecl| field_view(f)));
    let n: usize = fields.len();
    proof {
        reveal_strlit("String");
    }
    let text_name = String::from_str("String");
    let mut args: Vec<String> = Vec::new();
    let mut extract_lines: Vec<String> = Vec::new();
    let mut execute_lines: Vec<String> = Vec::new();
    let mut c: usize = 0;
    for i in 0..n
        invariant
            n == fields@.len(),
            n <= usize::MAX / 2,
            shape == fields@.map_values(|f: FieldDecl| field_view(f)),
            shape == shape_fields(decl@),
            text_name@ == text_type(),
            c == 2 * i,
            texts_view(args@) =~= Seq::new(2 * (i as nat), |k: int| arg_name(k as nat)),
            texts_view(extract_lines@) =~= Seq::new(
                i as nat,
                |j: int| extractor(shape[j].0, j as nat),
            ),
            texts_view(execute_lines@) =~= Seq::new(
                i as nat,
                |j: int| executor(shape[j].0, j as nat),
            ),
            forall|j: int| 0 <= j < i ==> #[trigger] shape[j].1 == text_type(),
    {
        let field = &fields[i];
        assert(shape[i as int] == field_view(*field));
        if !(field.ty == text_name) {
            assert(shape[i as int].1 != text_type());
            assert(!all_text_fields(shape));
            return Err(TemplateError::UnsupportedType);
        }
        let ghost old_args = texts_view(args@);
        let ghost old_ext = texts_view(extract_lines@);
        let ghost old_exe = texts_view(execute_lines@);
        let e1 = extractor_line(&field.name, i);
        let e2 = executor_line(&field.name, i);
        let a1 = arg_name_text(c);
        let a2 = arg_name_text(c + 1);
        extract_lines.push(e1);
        execute_lines.push(e2);
        args.push(a1);
        args.push(a2);
        proof {
            assert(texts_view(extract_lines@) =~= old_ext.push(e1@));
            assert(texts_view(execute_lines@) =~= old_exe.push(e2@));
            assert(texts_view(args@) =~= old_args.push(a1@).push(a2@));
        }
        c = c + 2;
    }
    let args_text = join_texts(&args, ",");
    let extract_text = join_texts(&extract_lines, "\n");
    let execute_text = join_texts(&execute_lines, "\n");
    let count_text = decimal_text(c);
    proof {
        reveal_strlit(",");
        reveal_strlit("\n");
        assert(","@ == seq![',']);
        assert("\n"@ == seq!['\n']);
        assert(texts_view(args@) =~= Seq::new(2 * (n as nat), |k: int| arg_name(k as nat)));
        assert(texts_view(extract_lines@) =~= Seq::new(
            shape.len(),
            |j: int| extractor(shape[j].0, j as nat),
        ));
        assert(texts_view(execute_lines@) =~= Seq::new(
            shape.len(),
            |j: int| executor(shape[j].0, j as nat),
        ));
        assert(args_text@ == arg_list(n as nat));
        assert(extract_text@ == extractors(shape));
        assert(execute_text@ == executors(shape));
    }
    let mut out = String::from_str(frame_text(0));
    out.append(original);
    out.append(frame_text(1));
    out.append(decl.name.as_str());
    out.append(frame_text(2));
    out.append(decl.name.as_str());
    out.append(frame_text(3));
    out.append(args_text.as_str());
    out.append(frame_text(4));
    out.append(extract_text.as_str());
    out.append(frame_text(5));
    out.append(template_exp);
    out.append(frame_text(6));
    out.append(decl.name.as_str());
    out.append(frame_text(7));
    out.append(decl.name.as_str());
    out.append(frame_text(8));
    out.append(decl.name.as_str());
    out.append(frame_text(9));
    out.append(execute_text.as_str());
    out.append(frame_text(10));
    out.append(count_text.as_str());
    out.append(frame_text(11));
    out.append(args_text.as_str());
    out.append(frame_text(12));
    Ok(out)
}

/// The attribute itself: `metadata` is the template expression and `input` the
/// text of the annotated struct.  The struct is parsed with `syn`; a parse error
/// is returned with the parser's message, and otherwise the result is that of
/// `expand` on the parsed struct.
pub fn template(metadata: &str, input: &str) -> (r: Result<String, TemplateError>)
    ensures
        match syn_struct(input@) {
            Err(m) => r matches Err(TemplateError::Malformed(e)) && e@ == m,
            Ok(shape) => if shape_fields(shape).len() > usize::MAX / 2 {
                r matches Err(TemplateError::TooManyFields)
            } else if all_text_fields(shape_fields(shape)) {
                r matches Ok(s) && s@ == expansion(metadata@, input@, shape.name, shape_fields(shape))
            } else {
                r matches Err(TemplateError::UnsupportedType)
            },
        },
{
    match parse_struct(input) {
        Err(m) => Err(TemplateError::Malformed(m)),
        Ok(decl) => {
            let count: usize = match &decl.fields {
                Some(v) => v.len(),
                None => 0,
            };
            if count > usize::MAX / 2 {
                Err(TemplateError::TooManyFields)
            } else {
                expand(metadata, input, &decl)
            }
        },
    }
}

} // verus!
