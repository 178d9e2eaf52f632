//! The text back end: turns assembled structs and pairs into Rust source
//! text, deterministically.

use vstd::prelude::*;
use vstd::string::*;
use crate::casing::{snake_of, to_snake_case};
use crate::dec::{spec_dec_str, dec_to_string};
use crate::strutil::{spec_u64_str, u64_to_string, str_eq, str_ends_with, str_starts_with,
    ends_with_spec, starts_with_spec, contains_sub, str_contains, spec_remove_all, remove_all,
    lex_le, str_lex_le, spec_sort_strs, sort_strings, spec_last_match, find_last_match,
    lemma_last_match_is_match, is_match_at};
use crate::types::{FieldInfo, FieldV, StructInfo, StructV, MessagePair, PairV};

verus! {

broadcast use vstd::string::group_string_axioms;

/// The numeric range attribute of a field: its explicit bounds when it has
/// any, else an implicit non-negative bound for identifier-like fields, else
/// nothing.
pub open spec fn spec_range_attr(f: FieldV) -> Seq<char> {
    if f.min_value is Some && f.max_value is Some {
        "    #[validate(range(min = "@ + spec_dec_str(f.min_value.unwrap()) + ", max = "@
            + spec_dec_str(f.max_value.unwrap()) + "))]\n"@
    } else if f.min_value is Some {
        "    #[validate(range(min = "@ + spec_dec_str(f.min_value.unwrap()) + "))]\n"@
    } else if f.max_value is Some {
        "    #[validate(range(max = "@ + spec_dec_str(f.max_value.unwrap()) + "))]\n"@
    } else if contains_sub(f.name, "id"@) && (f.rust_type == "i32"@ || f.rust_type == "u32"@) {
        "    #[validate(range(min = 0))]\n"@
    } else {
        Seq::empty()
    }
}

/// Appends the numeric range attribute a field calls for.
pub fn add_numeric_range_validation(code: &mut String, field: &FieldInfo)
    ensures
        final(code)@ == old(code)@ + spec_range_attr(field@),
{
    match (&field.min_value, &field.max_value) {
        (Some(mn), Some(mx)) => {
            code.append("    #[validate(range(min = ");
            let mns = dec_to_string(mn);
            code.append(mns.as_str());
            code.append(", max = ");
            let mxs = dec_to_string(mx);
            code.append(mxs.as_str());
            code.append("))]\n");
        },
        (Some(mn), None) => {
            code.append("    #[validate(range(min = ");
            let mns = dec_to_string(mn);
            code.append(mns.as_str());
            code.append("))]\n");
        },
        (None, Some(mx)) => {
            code.append("    #[validate(range(max = ");
            let mxs = dec_to_string(mx);
            code.append(mxs.as_str());
            code.append("))]\n");
        },
        (None, None) => {
            if str_contains(field.name.as_str(), "id") && (str_eq(field.rust_type.as_str(), "i32")
                || str_eq(field.rust_type.as_str(), "u32")) {
                code.append("    #[validate(range(min = 0))]\n");
            } else {
                proof {
                    assert(old(code)@ + spec_range_attr(field@) =~= old(code)@);
                }
            }
        },
    }
}

/// A length attribute over optional bounds, or nothing when both are absent.
pub open spec fn spec_length_attr(mn: Option<u64>, mx: Option<u64>) -> Seq<char> {
    if mn is Some && mx is Some {
        "    #[validate(length(min = "@ + spec_u64_str(mn.unwrap() as nat) + ", max = "@
            + spec_u64_str(mx.unwrap() as nat) + "))]\n"@
    } else if mn is Some {
        "    #[validate(length(min = "@ + spec_u64_str(mn.unwrap() as nat) + "))]\n"@
    } else if mx is Some {
        "    #[validate(length(max = "@ + spec_u64_str(mx.unwrap() as nat) + "))]\n"@
    } else {
        Seq::empty()
    }
}

fn add_length_attr(code: &mut String, mn: &Option<u64>, mx: &Option<u64>)
    ensures
        final(code)@ == old(code)@ + spec_length_attr(*mn, *mx),
{
    match (mn, mx) {
        (Some(a), Some(b)) => {
            code.append("    #[validate(length(min = ");
            let sa = u64_to_string(*a);
            code.append(sa.as_str());
            code.append(", max = ");
            let sb = u64_to_string(*b);
            code.append(sb.as_str());
            code.append("))]\n");
        },
        (Some(a), None) => {
            code.append("    #[validate(length(min = ");
            let sa = u64_to_string(*a);
            code.append(sa.as_str());
            code.append("))]\n");
        },
        (None, Some(b)) => {
            code.append("    #[validate(length(max = ");
            let sb = u64_to_string(*b);
            code.append(sb.as_str());
            code.append("))]\n");
        },
        (None, None) => {
            proof {
                assert(old(code)@ + spec_length_attr(*mn, *mx) =~= old(code)@);
            }
        },
    }
}

/// The item type inside a `Vec<...>` type name, when it is well formed.
pub open spec fn spec_vec_inner(t: Seq<char>) -> Seq<char> {
    if t.len() >= 5 && t.last() == '>' {
        t.subrange(4, t.len() - 1)
    } else {
        Seq::empty()
    }
}

/// A structured (non-enumeration) shared type, which carries its own
/// validation rules and is validated recursively.
pub open spec fn spec_is_nested_type(t: Seq<char>) -> bool {
    ends_with_spec(t, "Type"@) && !ends_with_spec(t, "EnumType"@)
}

/// The validation attributes of one field: length bounds for strings (with a
/// default maximum), item-count bounds and nested validation for sequences,
/// nested validation for structured shared types, and numeric ranges for
/// integers.
#[verifier::opaque]
pub open spec fn spec_validation_attrs(f: FieldV) -> Seq<char> {
    if !f.needs_validation {
        Seq::empty()
    } else if f.rust_type == "String"@ {
        if f.min_length is Some || f.max_length is Some {
            spec_length_attr(f.min_length, f.max_length)
        } else {
            "    #[validate(length(max = 255))]\n"@
        }
    } else if starts_with_spec(f.rust_type, "Vec<"@) {
        let nested: Seq<char> = if spec_is_nested_type(spec_vec_inner(f.rust_type)) {
            "    #[validate(nested)]\n"@
        } else {
            Seq::empty()
        };
        spec_length_attr(f.min_items, f.max_items) + nested
    } else if spec_is_nested_type(f.rust_type) {
        "    #[validate(nested)]\n"@
    } else if f.rust_type == "i32"@ || f.rust_type == "i64"@ || f.rust_type == "u32"@
        || f.rust_type == "u64"@ {
        spec_range_attr(f)
    } else if f.rust_type == "f32"@ || f.rust_type == "f64"@ {
        spec_range_attr(f)
    } else {
        Seq::empty()
    }
}

/// Appends the validation attributes a field calls for.
pub fn add_validation_attributes(code: &mut String, field: &FieldInfo)
    ensures
        final(code)@ == old(code)@ + spec_validation_attrs(field@),
{
    proof {
        reveal(spec_validation_attrs);
    }
    if !field.needs_validation {
        proof {
            assert(old(code)@ + spec_validation_attrs(field@) =~= old(code)@);
        }
        return ;
    }
    let t = field.rust_type.as_str();
    if str_eq(t, "String") {
        if field.min_length.is_some() || field.max_length.is_some() {
            add_length_attr(code, &field.min_length, &field.max_length);
        } else {
            code.append("    #[validate(length(max = 255))]\n");
        }
    } else if str_starts_with(t, "Vec<") {
        add_length_attr(code, &field.min_items, &field.max_items);
        let tlen = t.unicode_len();
        let is_nested = if tlen >= 5 && str_ends_with(t, ">") {
            let inner = t.substring_char(4, tlen - 1);
            proof {
                reveal_strlit(">");
                assert(">"@ =~= seq!['>']);
                assert(t@.subrange(t@.len() - 1, t@.len() as int) == ">"@);
                assert(t@.subrange(t@.len() - 1, t@.len() as int)[0] == t@[t@.len() - 1]);
                assert(t@[t@.len() - 1] == '>');
                assert(inner@ =~= spec_vec_inner(field@.rust_type));
            }
            str_ends_with(inner, "Type") && !str_ends_with(inner, "EnumType")
        } else {
            proof {
                reveal_strlit(">");
                assert(">"@ =~= seq!['>']);
                if field@.rust_type.len() >= 5 && field@.rust_type.last() == '>' {
                    assert(t@.subrange(t@.len() - 1, t@.len() as int) =~= ">"@);
                    assert(ends_with_spec(t@, ">"@));
                }
                assert(spec_vec_inner(field@.rust_type) =~= Seq::<char>::empty());
                assert(!spec_is_nested_type(Seq::<char>::empty())) by {
                    reveal_strlit("Type");
                }
            }
            false
        };
        if is_nested {
            code.append("    #[validate(nested)]\n");
        }
    } else if str_ends_with(t, "Type") && !str_ends_with(t, "EnumType") {
        code.append("    #[validate(nested)]\n");
    } else if str_eq(t, "i32") || str_eq(t, "i64") || str_eq(t, "u32") || str_eq(t, "u64") {
        add_numeric_range_validation(code, field);
    } else if str_eq(t, "f32") || str_eq(t, "f64") {
        add_numeric_range_validation(code, field);
    } else {
        proof {
            assert(old(code)@ + spec_validation_attrs(field@) =~= old(code)@);
        }
    }
}

/// The serde attribute lines of one field: an explicit rename only when the
/// target identifier cannot be recovered from the original key by the case
/// conversion alone, and an omit-when-absent rule for optional fields.
#[verifier::opaque]
pub open spec fn spec_serde_attrs(f: FieldV) -> Seq<char> {
    let renamed = f.name != f.original_name && f.name != snake_of(f.original_name);
    if renamed && f.is_optional {
        "    #[serde(\n        rename = \""@ + f.original_name
            + "\",\n        skip_serializing_if = \"Option::is_none\"\n    )]\n"@
    } else if renamed {
        "    #[serde(rename = \""@ + f.original_name + "\")]\n"@
    } else if f.is_optional {
        "    #[serde(skip_serializing_if = \"Option::is_none\")]\n"@
    } else {
        Seq::empty()
    }
}

/// Appends the serde attribute lines a field calls for.
pub fn add_serde_attrs(code: &mut String, field: &FieldInfo)
    ensures
        final(code)@ == old(code)@ + spec_serde_attrs(field@),
{
    proof {
        reveal(spec_serde_attrs);
    }
    let expected = to_snake_case(field.original_name.as_str());
    let renamed = !str_eq(field.name.as_str(), field.original_name.as_str()) && !str_eq(
        field.name.as_str(),
        expected.as_str(),
    );
    if renamed && field.is_optional {
        code.append("    #[serde(\n        rename = \"");
        code.append(field.original_name.as_str());
        code.append("\",\n        skip_serializing_if = \"Option::is_none\"\n    )]\n");
    } else if renamed {
        code.append("    #[serde(rename = \"");
        code.append(field.original_name.as_str());
        code.append("\")]\n");
    } else if field.is_optional {
        code.append("    #[serde(skip_serializing_if = \"Option::is_none\")]\n");
    } else {
        proof {
            assert(old(code)@ + spec_serde_attrs(field@) =~= old(code)@);
        }
    }
}

/// The declared type of a field: wrapped in `Option` when optional.
pub open spec fn spec_field_type(f: FieldV) -> Seq<char> {
    if f.is_optional {
        "Option<"@ + f.rust_type + ">"@
    } else {
        f.rust_type
    }
}

fn field_type_string(field: &FieldInfo) -> (r: String)
    ensures
        r@ == spec_field_type(field@),
{
    if field.is_optional {
        let mut s = ("Option<").to_owned();
        s.append(field.rust_type.as_str());
        s.append(">");
        s
    } else {
        field.rust_type.clone()
    }
}

/// What a field's documentation says of it: its description when it has
/// one, else a stock phrase.
pub open spec fn spec_param_doc(f: FieldV) -> Seq<char> {
    match f.description {
        Some(d) => d,
        None => "The "@ + f.name + " field"@,
    }
}

fn param_doc_string(field: &FieldInfo) -> (r: String)
    ensures
        r@ == spec_param_doc(field@),
{
    match &field.description {
        Some(d) => d.clone(),
        None => {
            let mut s = ("The ").to_owned();
            s.append(field.name.as_str());
            s.append(" field");
            s
        },
    }
}

/// The doc comment above a field, when it has a non-empty description.
pub open spec fn spec_desc_comment(f: FieldV) -> Seq<char> {
    match f.description {
        Some(d) => if d.len() > 0 {
            "    /// "@ + d + "\n"@
        } else {
            Seq::empty()
        },
        None => Seq::empty(),
    }
}

/// The declaration line of a field.
pub open spec fn spec_field_def(f: FieldV) -> Seq<char> {
    "    pub "@ + f.name + ": "@ + spec_field_type(f) + ",\n"@
}

/// Everything emitted for the field at position `idx`: a separating blank
/// line after the first field, the doc comment, the serde and validation
/// attributes, and the declaration.
pub open spec fn spec_field_block(f: FieldV, idx: int) -> Seq<char> {
    let sep: Seq<char> = if idx > 0 {
        "\n"@
    } else {
        Seq::empty()
    };
    sep + spec_desc_comment(f) + spec_serde_attrs(f) + spec_validation_attrs(f) + spec_field_def(f)
}

/// The field section of a struct: the blocks of the first `i` fields.
pub open spec fn spec_fields_section(fields: Seq<FieldV>, i: int) -> Seq<char>
    decreases i,
{
    if i <= 0 {
        Seq::empty()
    } else {
        spec_fields_section(fields, i - 1) + spec_field_block(fields[i - 1], i - 1)
    }
}

/// A lower-case ASCII letter raised to its upper-case counterpart; any
/// other character is left as it is.
pub open spec fn upper_char(c: char) -> char {
    if c == 'a' {
        'A'
    } else if c == 'b' {
        'B'
    } else if c == 'c' {
        'C'
    } else if c == 'd' {
        'D'
    } else if c == 'e' {
        'E'
    } else if c == 'f' {
        'F'
    } else if c == 'g' {
        'G'
    } else if c == 'h' {
        'H'
    } else if c == 'i' {
        'I'
    } else if c == 'j' {
        'J'
    } else if c == 'k' {
        'K'
    } else if c == 'l' {
        'L'
    } else if c == 'm' {
        'M'
    } else if c == 'n' {
        'N'
    } else if c == 'o' {
        'O'
    } else if c == 'p' {
        'P'
    } else if c == 'q' {
        'Q'
    } else if c == 'r' {
        'R'
    } else if c == 's' {
        'S'
    } else if c == 't' {
        'T'
    } else if c == 'u' {
        'U'
    } else if c == 'v' {
        'V'
    } else if c == 'w' {
        'W'
    } else if c == 'x' {
        'X'
    } else if c == 'y' {
        'Y'
    } else if c == 'z' {
        'Z'
    } else {
        c
    }
}

fn upper_char_str(c: char) -> (r: Option<&'static str>)
    ensures
        match r {
            Some(u) => u@ == seq![upper_char(c)],
            None => upper_char(c) == c,
        },
{
    let r: Option<&'static str> =     if c == 'a' {
            Some("A")
        } else if c == 'b' {
            Some("B")
        } else if c == 'c' {
            Some("C")
        } else if c == 'd' {
            Some("D")
        } else if c == 'e' {
            Some("E")
        } else if c == 'f' {
            Some("F")
        } else if c == 'g' {
            Some("G")
        } else if c == 'h' {
            Some("H")
        } else if c == 'i' {
            Some("I")
        } else if c == 'j' {
            Some("J")
        } else if c == 'k' {
            Some("K")
        } else if c == 'l' {
            Some("L")
        } else if c == 'm' {
            Some("M")
        } else if c == 'n' {
            Some("N")
        } else if c == 'o' {
            Some("O")
        } else if c == 'p' {
            Some("P")
        } else if c == 'q' {
            Some("Q")
        } else if c == 'r' {
            Some("R")
        } else if c == 's' {
            Some("S")
        } else if c == 't' {
            Some("T")
        } else if c == 'u' {
            Some("U")
        } else if c == 'v' {
            Some("V")
        } else if c == 'w' {
            Some("W")
        } else if c == 'x' {
            Some("X")
        } else if c == 'y' {
            Some("Y")
        } else if c == 'z' {
            Some("Z")
        } else {
            None
        };
    proof {
        reveal_strlit("A");
        reveal_strlit("B");
        reveal_strlit("C");
        reveal_strlit("D");
        reveal_strlit("E");
        reveal_strlit("F");
        reveal_strlit("G");
        reveal_strlit("H");
        reveal_strlit("I");
        reveal_strlit("J");
        reveal_strlit("K");
        reveal_strlit("L");
        reveal_strlit("M");
        reveal_strlit("N");
        reveal_strlit("O");
        reveal_strlit("P");
        reveal_strlit("Q");
        reveal_strlit("R");
        reveal_strlit("S");
        reveal_strlit("T");
        reveal_strlit("U");
        reveal_strlit("V");
        reveal_strlit("W");
        reveal_strlit("X");
        reveal_strlit("Y");
        reveal_strlit("Z");
        match r {
            Some(u) => {
                assert(u@ =~= seq![upper_char(c)]);
            },
            None => {},
        }
    }
    r
}

/// A word with its first character raised to upper case.
pub open spec fn spec_capitalized(mt: Seq<char>) -> Seq<char> {
    if mt.len() == 0 {
        mt
    } else {
        seq![upper_char(mt[0])] + mt.skip(1)
    }
}

fn capitalized_string(mt: &str) -> (r: String)
    ensures
        r@ == spec_capitalized(mt@),
{
    let len = mt.unicode_len();
    if len == 0 {
        let r = String::new();
        proof {
            assert(r@ =~= spec_capitalized(mt@));
        }
        return r;
    }
    let c = mt.get_char(0);
    let mut out = match upper_char_str(c) {
        Some(u) => u.to_owned(),
        None => mt.substring_char(0, 1).to_owned(),
    };
    out.append(mt.substring_char(1, len));
    proof {
        assert(mt@.subrange(0, 1) =~= seq![mt@[0]]);
        assert(out@ =~= spec_capitalized(mt@));
    }
    out
}

/// The doc comment above a struct: a request/response body line for a
/// suffixed name, else a standalone message line.
#[verifier::opaque]
pub open spec fn spec_struct_comment(name: Seq<char>, mt: Seq<char>) -> Seq<char> {
    if ends_with_spec(name, "Request"@) || ends_with_spec(name, "Response"@) {
        "/// "@ + spec_capitalized(mt) + " body for the "@ + spec_remove_all(
            spec_remove_all(name, "Request"@),
            "Response"@,
        ) + " "@ + mt + ".\n"@
    } else {
        "/// "@ + name + " message structure.\n"@
    }
}

/// The parameter-list text and required-parameter count over the first `i`
/// fields of a struct's constructor.
pub open spec fn spec_new_params(fields: Seq<FieldV>, i: int) -> (Seq<char>, int)
    decreases i,
{
    if i <= 0 {
        (Seq::empty(), 0)
    } else {
        let prev = spec_new_params(fields, i - 1);
        let f = fields[i - 1];
        if f.is_optional {
            prev
        } else {
            (
                prev.0 + (if prev.1 > 0 {
                    ", "@
                } else {
                    Seq::<char>::empty()
                }) + f.name + ": "@ + f.rust_type,
                prev.1 + 1,
            )
        }
    }
}

/// The constructor's parameter documentation over the first `i` fields.
pub open spec fn spec_new_param_docs(fields: Seq<FieldV>, i: int) -> Seq<char>
    decreases i,
{
    if i <= 0 {
        Seq::empty()
    } else {
        let f = fields[i - 1];
        spec_new_param_docs(fields, i - 1) + (if f.is_optional {
            Seq::<char>::empty()
        } else {
            "    /// * `"@ + f.name + "` - "@ + spec_param_doc(f) + "\n"@
        })
    }
}

/// The constructor's field initializers over the first `i` fields.
pub open spec fn spec_new_inits(fields: Seq<FieldV>, i: int) -> Seq<char>
    decreases i,
{
    if i <= 0 {
        Seq::empty()
    } else {
        let f = fields[i - 1];
        spec_new_inits(fields, i - 1) + (if f.is_optional {
            "            "@ + f.name + ": None,\n"@
        } else {
            "            "@ + f.name + ",\n"@
        })
    }
}

/// The constructor of a struct: required fields become parameters, optional
/// fields start as `None`.
#[verifier::opaque]
pub open spec fn spec_new_method(s: StructV) -> Seq<char> {
    "    /// Creates a new instance of the struct.\n    ///\n"@ + spec_new_param_docs(
        s.fields,
        s.fields.len() as int,
    )
        + "    ///\n    /// # Returns\n    ///\n    /// A new instance of the struct with required fields set and optional fields as None.\n    pub fn new("@
        + spec_new_params(s.fields, s.fields.len() as int).0 + ") -> Self {\n        Self {\n"@
        + spec_new_inits(s.fields, s.fields.len() as int) + "        }\n    }\n"@
}

/// Generates the constructor of a struct.
#[verifier::loop_isolation(false)]
#[verifier::rlimit(60)]
pub fn generate_new_method(struct_info: &StructInfo) -> (r: String)
    ensures
        r@ == spec_new_method(struct_info@),
{
    let ghost fields = struct_info@.fields;
    let mut out = ("    /// Creates a new instance of the struct.\n    ///\n").to_owned();
    let mut i: usize = 0;
    while i < struct_info.fields.len()
        invariant
            i <= fields.len(),
            out@ == "    /// Creates a new instance of the struct.\n    ///\n"@
                + spec_new_param_docs(fields, i as int),
        decreases fields.len() - i,
    {
        let f = &struct_info.fields[i];
        if !f.is_optional {
            out.append("    /// * `");
            out.append(f.name.as_str());
            out.append("` - ");
            let doc = param_doc_string(f);
            out.append(doc.as_str());
            out.append("\n");
        }
        i = i + 1;
    }
    out.append(
        "    ///\n    /// # Returns\n    ///\n    /// A new instance of the struct with required fields set and optional fields as None.\n    pub fn new(",
    );
    let ghost mid = out@;
    let mut count: usize = 0;
    let mut j: usize = 0;
    while j < struct_info.fields.len()
        invariant
            j <= fields.len(),
            count <= j,
            out@ == mid + spec_new_params(fields, j as int).0,
            count == spec_new_params(fields, j as int).1,
        decreases fields.len() - j,
    {
        let f = &struct_info.fields[j];
        if !f.is_optional {
            if count > 0 {
                out.append(", ");
            }
            out.append(f.name.as_str());
            out.append(": ");
            out.append(f.rust_type.as_str());
            count = count + 1;
        }
        j = j + 1;
    }
    out.append(") -> Self {\n        Self {\n");
    let ghost mid2 = out@;
    let mut k: usize = 0;
    while k < struct_info.fields.len()
        invariant
            k <= fields.len(),
            out@ == mid2 + spec_new_inits(fields, k as int),
        decreases fields.len() - k,
    {
        let f = &struct_info.fields[k];
        out.append("            ");
        out.append(f.name.as_str());
        if f.is_optional {
            out.append(": None,\n");
        } else {
            out.append(",\n");
        }
        k = k + 1;
    }
    out.append("        }\n    }\n");
    proof {
        reveal(spec_new_method);
        assert(out@ =~= spec_new_method(struct_info@));
    }
    out
}

/// The setter of one field.
#[verifier::opaque]
pub open spec fn spec_setter_method(f: FieldV) -> Seq<char> {
    "    /// Sets the "@ + f.name + " field.\n    ///\n    /// * `"@ + f.name + "` - "@
        + spec_param_doc(f)
        + "\n    ///\n    /// # Returns\n    ///\n    /// A mutable reference to self for method chaining.\n    pub fn set_"@
        + f.name + "(&mut self, "@ + f.name + ": "@ + spec_field_type(f)
        + ") -> &mut Self {\n        self."@ + f.name + " = "@ + f.name
        + ";\n        self\n    }\n"@
}

/// Generates the setter of one field.
pub fn generate_setter_method(field: &FieldInfo) -> (r: String)
    ensures
        r@ == spec_setter_method(field@),
{
    let mut out = ("    /// Sets the ").to_owned();
    out.append(field.name.as_str());
    out.append(" field.\n    ///\n    /// * `");
    out.append(field.name.as_str());
    out.append("` - ");
    let doc = param_doc_string(field);
    out.append(doc.as_str());
    out.append(
        "\n    ///\n    /// # Returns\n    ///\n    /// A mutable reference to self for method chaining.\n    pub fn set_",
    );
    out.append(field.name.as_str());
    out.append("(&mut self, ");
    out.append(field.name.as_str());
    out.append(": ");
    let ft = field_type_string(field);
    out.append(ft.as_str());
    out.append(") -> &mut Self {\n        self.");
    out.append(field.name.as_str());
    out.append(" = ");
    out.append(field.name.as_str());
    out.append(";\n        self\n    }\n");
    proof {
        reveal(spec_setter_method);
        assert(out@ =~= spec_setter_method(field@));
    }
    out
}

/// The getter of one field: a reference, through `Option` for an optional
/// field.
#[verifier::opaque]
pub open spec fn spec_getter_method(f: FieldV) -> Seq<char> {
    let ret: Seq<char> = if f.is_optional {
        "Option<&"@ + f.rust_type + ">"@
    } else {
        "&"@ + f.rust_type
    };
    let body: Seq<char> = if f.is_optional {
        "        self."@ + f.name + ".as_ref()\n"@
    } else {
        "        &self."@ + f.name + "\n"@
    };
    "    /// Gets a reference to the "@ + f.name
        + " field.\n    ///\n    /// # Returns\n    ///\n    /// "@ + spec_param_doc(f)
        + "\n    pub fn get_"@ + f.name + "(&self) -> "@ + ret + " {\n"@ + body + "    }\n"@
}

/// Generates the getter of one field.
pub fn generate_getter_method(field: &FieldInfo) -> (r: String)
    ensures
        r@ == spec_getter_method(field@),
{
    let mut out = ("    /// Gets a reference to the ").to_owned();
    out.append(field.name.as_str());
    out.append(" field.\n    ///\n    /// # Returns\n    ///\n    /// ");
    let doc = param_doc_string(field);
    out.append(doc.as_str());
    out.append("\n    pub fn get_");
    out.append(field.name.as_str());
    out.append("(&self) -> ");
    if field.is_optional {
        out.append("Option<&");
        out.append(field.rust_type.as_str());
        out.append(">");
    } else {
        out.append("&");
        out.append(field.rust_type.as_str());
    }
    out.append(" {\n");
    if field.is_optional {
        out.append("        self.");
        out.append(field.name.as_str());
        out.append(".as_ref()\n");
    } else {
        out.append("        &self.");
        out.append(field.name.as_str());
        out.append("\n");
    }
    out.append("    }\n");
    proof {
        reveal(spec_getter_method);
        assert(out@ =~= spec_getter_method(field@));
    }
    out
}

/// The builder-style setter of one optional field.
#[verifier::opaque]
pub open spec fn spec_with_method(f: FieldV) -> Seq<char> {
    "    /// Sets the "@ + f.name + " field and returns self for builder pattern.\n    ///\n    /// * `"@
        + f.name + "` - "@ + spec_param_doc(f)
        + "\n    ///\n    /// # Returns\n    ///\n    /// Self with the field set.\n    pub fn with_"@
        + f.name + "(mut self, "@ + f.name + ": "@ + f.rust_type + ") -> Self {\n        self."@
        + f.name + " = Some("@ + f.name + ");\n        self\n    }\n"@
}

/// Generates the builder-style setter of one optional field.
pub fn generate_with_method(field: &FieldInfo) -> (r: String)
    ensures
        r@ == spec_with_method(field@),
{
    let mut out = ("    /// Sets the ").to_owned();
    out.append(field.name.as_str());
    out.append(" field and returns self for builder pattern.\n    ///\n    /// * `");
    out.append(field.name.as_str());
    out.append("` - ");
    let doc = param_doc_string(field);
    out.append(doc.as_str());
    out.append(
        "\n    ///\n    /// # Returns\n    ///\n    /// Self with the field set.\n    pub fn with_",
    );
    out.append(field.name.as_str());
    out.append("(mut self, ");
    out.append(field.name.as_str());
    out.append(": ");
    out.append(field.rust_type.as_str());
    out.append(") -> Self {\n        self.");
    out.append(field.name.as_str());
    out.append(" = Some(");
    out.append(field.name.as_str());
    out.append(");\n        self\n    }\n");
    proof {
        reveal(spec_with_method);
        assert(out@ =~= spec_with_method(field@));
    }
    out
}

/// The setters of the first `i` fields, each followed by a blank line.
pub open spec fn spec_setters(fields: Seq<FieldV>, i: int) -> Seq<char>
    decreases i,
{
    if i <= 0 {
        Seq::empty()
    } else {
        spec_setters(fields, i - 1) + spec_setter_method(fields[i - 1]) + "\n"@
    }
}

/// The getters of the first `i` fields, each followed by a blank line.
pub open spec fn spec_getters(fields: Seq<FieldV>, i: int) -> Seq<char>
    decreases i,
{
    if i <= 0 {
        Seq::empty()
    } else {
        spec_getters(fields, i - 1) + spec_getter_method(fields[i - 1]) + "\n"@
    }
}

/// The builder setters of the optional fields among the first `i`.
pub open spec fn spec_withs(fields: Seq<FieldV>, i: int) -> Seq<char>
    decreases i,
{
    if i <= 0 {
        Seq::empty()
    } else {
        spec_withs(fields, i - 1) + (if fields[i - 1].is_optional {
            spec_with_method(fields[i - 1]) + "\n"@
        } else {
            Seq::<char>::empty()
        })
    }
}

/// The implementation block of a struct: its constructor, then a setter and
/// a getter per field, then a builder setter per optional field.
#[verifier::opaque]
pub open spec fn spec_impl_block(s: StructV) -> Seq<char> {
    "impl "@ + s.name + " {\n"@ + spec_new_method(s) + "\n"@ + spec_setters(
        s.fields,
        s.fields.len() as int,
    ) + spec_getters(s.fields, s.fields.len() as int) + spec_withs(
        s.fields,
        s.fields.len() as int,
    ) + "}\n"@
}

/// Generates the implementation block of a struct.
#[verifier::loop_isolation(false)]
#[verifier::rlimit(60)]
pub fn generate_impl_block(struct_info: &StructInfo) -> (r: String)
    ensures
        r@ == spec_impl_block(struct_info@),
{
    let ghost fields = struct_info@.fields;
    let mut out = ("impl ").to_owned();
    out.append(struct_info.name.as_str());
    out.append(" {\n");
    let nm = generate_new_method(struct_info);
    out.append(nm.as_str());
    out.append("\n");
    let ghost mid = out@;
    let mut i: usize = 0;
    while i < struct_info.fields.len()
        invariant
            i <= fields.len(),
            out@ == mid + spec_setters(fields, i as int),
        decreases fields.len() - i,
    {
        let m = generate_setter_method(&struct_info.fields[i]);
        out.append(m.as_str());
        out.append("\n");
        i = i + 1;
    }
    let ghost mid2 = out@;
    let mut j: usize = 0;
    while j < struct_info.fields.len()
        invariant
            j <= fields.len(),
            out@ == mid2 + spec_getters(fields, j as int),
        decreases fields.len() - j,
    {
        let m = generate_getter_method(&struct_info.fields[j]);
        out.append(m.as_str());
        out.append("\n");
        j = j + 1;
    }
    let ghost mid3 = out@;
    let mut k: usize = 0;
    while k < struct_info.fields.len()
        invariant
            k <= fields.len(),
            out@ == mid3 + spec_withs(fields, k as int),
        decreases fields.len() - k,
    {
        if struct_info.fields[k].is_optional {
            let m = generate_with_method(&struct_info.fields[k]);
            out.append(m.as_str());
            out.append("\n");
        }
        k = k + 1;
    }
    out.append("}\n");
    proof {
        reveal(spec_impl_block);
        assert(out@ == spec_impl_block(struct_info@));
    }
    out
}

/// The whole source text of one struct: its doc comment, the derives, the
/// serde casing rule, the field section, and the implementation block.
#[verifier::opaque]
pub open spec fn spec_struct_code(s: StructV, mt: Seq<char>) -> Seq<char> {
    spec_struct_comment(s.name, mt)
        + "#[derive(Debug, Clone, PartialEq, Deserialize, Serialize, Validate)]\n#[serde(rename_all = \"camelCase\")]\npub struct "@
        + s.name + " {\n"@ + spec_fields_section(s.fields, s.fields.len() as int) + "}\n\n"@
        + spec_impl_block(s)
}

/// Generates the source text of one struct.
#[verifier::loop_isolation(false)]
#[verifier::rlimit(100)]
pub fn generate_struct_code(struct_info: &StructInfo, message_type: &str) -> (r: String)
    ensures
        r@ == spec_struct_code(struct_info@, message_type@),
{
    let ghost fields = struct_info@.fields;
    let mut out = String::new();
    if str_ends_with(struct_info.name.as_str(), "Request") || str_ends_with(
        struct_info.name.as_str(),
        "Response",
    ) {
        proof {
            reveal_strlit("Request");
            reveal_strlit("Response");
        }
        out.append("/// ");
        let cap = capitalized_string(message_type);
        out.append(cap.as_str());
        out.append(" body for the ");
        let stripped_req = remove_all(struct_info.name.as_str(), "Request");
        let stripped = remove_all(stripped_req.as_str(), "Response");
        out.append(stripped.as_str());
        out.append(" ");
        out.append(message_type);
        out.append(".\n");
    } else {
        out.append("/// ");
        out.append(struct_info.name.as_str());
        out.append(" message structure.\n");
    }
    proof {
        reveal(spec_struct_comment);
        assert(out@ =~= spec_struct_comment(struct_info@.name, message_type@));
    }
    out.append(
        "#[derive(Debug, Clone, PartialEq, Deserialize, Serialize, Validate)]\n#[serde(rename_all = \"camelCase\")]\npub struct ",
    );
    out.append(struct_info.name.as_str());
    out.append(" {\n");
    let ghost mid = out@;
    let mut i: usize = 0;
    while i < struct_info.fields.len()
        invariant
            i <= fields.len(),
            out@ == mid + spec_fields_section(fields, i as int),
        decreases fields.len() - i,
    {
        let ghost before = out@;
        if i > 0 {
            out.append("\n");
        }
        let f = &struct_info.fields[i];
        match &f.description {
            Some(d) => {
                if d.unicode_len() > 0 {
                    out.append("    /// ");
                    out.append(d.as_str());
                    out.append("\n");
                }
            },
            None => {},
        }
        proof {
            assert(out@ =~= before + (if i > 0 {
                "\n"@
            } else {
                Seq::<char>::empty()
            }) + spec_desc_comment(fields[i as int]));
        }
        add_serde_attrs(&mut out, f);
        add_validation_attributes(&mut out, f);
        out.append("    pub ");
        out.append(f.name.as_str());
        out.append(": ");
        let ft = field_type_string(f);
        out.append(ft.as_str());
        out.append(",\n");
        proof {
            assert(out@ =~= before + spec_field_block(fields[i as int], i as int));
        }
        i = i + 1;
    }
    out.append("}\n\n");
    let ib = generate_impl_block(struct_info);
    out.append(ib.as_str());
    proof {
        reveal(spec_struct_code);
        assert(out@ == spec_struct_code(struct_info@, message_type@));
    }
    out
}

/// One parsed import line: a crate-internal import split into module and
/// type, or any other line kept whole.
pub enum ImportKind {
    Grouped { module: String, ty: String },
    Plain(String),
}

/// The abstract value of an [`ImportKind`].
pub ghost enum ImportKindV {
    Grouped { module: Seq<char>, ty: Seq<char> },
    Plain(Seq<char>),
}

impl View for ImportKind {
    type V = ImportKindV;

    open spec fn view(&self) -> ImportKindV {
        match self {
            ImportKind::Grouped { module, ty } => ImportKindV::Grouped {
                module: module@,
                ty: ty@,
            },
            ImportKind::Plain(s) => ImportKindV::Plain(s@),
        }
    }
}

/// How one import line parses: a `use crate::...;` line is split at its last
/// `::` into module path and type name; one missing its semicolon is
/// dropped; anything else is kept whole.
pub open spec fn spec_parse_import(s: Seq<char>) -> Option<ImportKindV> {
    if starts_with_spec(s, "use crate::"@) {
        if ends_with_spec(s, ";"@) && s.len() > "use crate::"@.len() {
            let inner = s.subrange("use crate::"@.len() as int, s.len() - 1);
            match spec_last_match(inner, "::"@) {
                Some(p) => Some(
                    ImportKindV::Grouped { module: inner.take(p), ty: inner.skip(p + 2) },
                ),
                None => Some(ImportKindV::Grouped { module: Seq::empty(), ty: inner }),
            }
        } else {
            None
        }
    } else {
        Some(ImportKindV::Plain(s))
    }
}

/// Parses one import line.
pub fn parse_import(import: &str) -> (r: Option<ImportKind>)
    ensures
        match r {
            Some(k) => spec_parse_import(import@) == Some(k@),
            None => spec_parse_import(import@) is None,
        },
{
    if !str_starts_with(import, "use crate::") {
        return Some(ImportKind::Plain(import.to_owned()));
    }
    let len = import.unicode_len();
    let prefix_len = ("use crate::").unicode_len();
    if !str_ends_with(import, ";") || len <= prefix_len {
        return None;
    }
    let inner = import.substring_char(prefix_len, len - 1);
    proof {
        assert(inner@ =~= import@.subrange("use crate::"@.len() as int, import@.len() - 1));
    }
    match find_last_match(inner, "::") {
        Some(p) => {
            proof {
                reveal_strlit("::");
                lemma_last_match_is_match(inner@, "::"@, inner@.len() - "::"@.len() + 1);
                assert(is_match_at(inner@, "::"@, p as int));
                assert(p + 2 <= inner@.len());
            }
            let inner_len = inner.unicode_len();
            let module = inner.substring_char(0, p).to_owned();
            let ty = inner.substring_char(p + 2, inner_len).to_owned();
            proof {
                assert(module@ =~= inner@.take(p as int));
                assert(ty@ =~= inner@.skip(p + 2));
            }
            Some(ImportKind::Grouped { module, ty })
        },
        None => {
            proof {
                assert(inner@.take(0) =~= Seq::<char>::empty());
            }
            Some(ImportKind::Grouped { module: String::new(), ty: inner.to_owned() })
        },
    }
}

/// Inserts a type under its module into an association list kept sorted by
/// module name: an existing group grows, a new module opens a group at its
/// sorted position.
pub open spec fn spec_group_insert(
    groups: Seq<(Seq<char>, Seq<Seq<char>>)>,
    m: Seq<char>,
    t: Seq<char>,
) -> Seq<(Seq<char>, Seq<Seq<char>>)>
    decreases groups.len(),
{
    if groups.len() == 0 {
        seq![(m, seq![t])]
    } else if groups[0].0 == m {
        seq![(groups[0].0, groups[0].1.push(t))] + groups.skip(1)
    } else if lex_le(m, groups[0].0) {
        seq![(m, seq![t])] + groups
    } else {
        seq![groups[0]] + spec_group_insert(groups.skip(1), m, t)
    }
}

proof fn lemma_group_insert_at(
    groups: Seq<(Seq<char>, Seq<Seq<char>>)>,
    m: Seq<char>,
    t: Seq<char>,
    i: int,
)
    requires
        0 <= i <= groups.len(),
        forall|j: int|
            0 <= j < i ==> (#[trigger] groups[j].0) != m && !lex_le(m, groups[j].0),
        i < groups.len() ==> groups[i].0 == m || lex_le(m, groups[i].0),
    ensures
        spec_group_insert(groups, m, t) == if i < groups.len() && groups[i].0 == m {
            groups.update(i, (groups[i].0, groups[i].1.push(t)))
        } else {
            groups.take(i) + seq![(m, seq![t])] + groups.skip(i)
        },
    decreases groups.len(),
{
    if groups.len() == 0 {
        assert(spec_group_insert(groups, m, t) =~= groups.take(i) + seq![(m, seq![t])]
            + groups.skip(i));
    } else if i == 0 {
        if groups[0].0 == m {
            assert(seq![(groups[0].0, groups[0].1.push(t))] + groups.skip(1) =~= groups.update(
                0,
                (groups[0].0, groups[0].1.push(t)),
            ));
        } else {
            assert(lex_le(m, groups[0].0));
            assert(seq![(m, seq![t])] + groups =~= groups.take(0) + seq![(m, seq![t])]
                + groups.skip(0));
        }
    } else {
        assert(groups[0].0 != m && !lex_le(m, groups[0].0));
        lemma_group_insert_at(groups.skip(1), m, t, i - 1);
        if i < groups.len() && groups[i].0 == m {
            assert(groups.skip(1)[i - 1].0 == m);
            assert(seq![groups[0]] + groups.skip(1).update(
                i - 1,
                (groups.skip(1)[i - 1].0, groups.skip(1)[i - 1].1.push(t)),
            ) =~= groups.update(i, (groups[i].0, groups[i].1.push(t))));
        } else {
            assert(seq![groups[0]] + (groups.skip(1).take(i - 1) + seq![(m, seq![t])]
                + groups.skip(1).skip(i - 1)) =~= groups.take(i) + seq![(m, seq![t])]
                + groups.skip(i));
        }
    }
}

/// Inserts one type under its module.
#[verifier::loop_isolation(false)]
fn insert_group(groups: &mut Vec<(String, Vec<String>)>, m: String, t: String)
    ensures
        final(groups).deep_view() == spec_group_insert(old(groups).deep_view(), m@, t@),
{
    let ghost gv = groups.deep_view();
    let mut i: usize = 0;
    while i < groups.len() && !str_eq(groups[i].0.as_str(), m.as_str()) && !str_lex_le(
        m.as_str(),
        groups[i].0.as_str(),
    )
        invariant
            i <= groups.len(),
            forall|j: int| 0 <= j < i ==> (#[trigger] gv[j].0) != m@ && !lex_le(m@, gv[j].0),
        decreases groups.len() - i,
    {
        i = i + 1;
    }
    proof {
        lemma_group_insert_at(gv, m@, t@, i as int);
    }
    if i < groups.len() && str_eq(groups[i].0.as_str(), m.as_str()) {
        let mut entry = groups.remove(i);
        entry.1.push(t);
        groups.insert(i, entry);
        proof {
            assert(groups.deep_view() =~~= gv.update(
                i as int,
                (gv[i as int].0, gv[i as int].1.push(t@)),
            ));
        }
    } else {
        groups.insert(i, (m, vec![t]));
        proof {
            assert(groups.deep_view() =~~= gv.take(i as int) + seq![(m@, seq![t@])] + gv.skip(
                i as int,
            ));
        }
    }
}

/// Sorted strings with consecutive duplicates removed: each distinct string
/// once.
pub open spec fn spec_dedup(s: Seq<Seq<char>>) -> Seq<Seq<char>>
    decreases s.len(),
{
    if s.len() == 0 {
        Seq::empty()
    } else if s.len() == 1 {
        s
    } else if s.last() == s[s.len() - 2] {
        spec_dedup(s.drop_last())
    } else {
        spec_dedup(s.drop_last()).push(s.last())
    }
}

/// Removes consecutive duplicates.
#[verifier::loop_isolation(false)]
fn dedup_strings(v: &Vec<String>) -> (r: Vec<String>)
    ensures
        r.deep_view() == spec_dedup(v.deep_view()),
{
    let mut r: Vec<String> = Vec::new();
    if v.len() == 0 {
        proof {
            assert(r.deep_view() =~= spec_dedup(v.deep_view()));
        }
        return r;
    }
    r.push(v[0].clone());
    proof {
        assert(v.deep_view().take(1) =~= seq![v.deep_view()[0]]);
        assert(r.deep_view() =~= spec_dedup(v.deep_view().take(1)));
    }
    let mut i: usize = 1;
    while i < v.len()
        invariant
            1 <= i <= v.len(),
            r.deep_view() == spec_dedup(v.deep_view().take(i as int)),
        decreases v.len() - i,
    {
        proof {
            assert(v.deep_view().take(i + 1).drop_last() =~= v.deep_view().take(i as int));
            assert(v.deep_view().take(i + 1).last() == v.deep_view()[i as int]);
        }
        if !str_eq(v[i].as_str(), v[i - 1].as_str()) {
            r.push(v[i].clone());
        }
        i = i + 1;
    }
    proof {
        assert(v.deep_view().take(v.deep_view().len() as int) =~= v.deep_view());
    }
    r
}

/// The comma-joined form of the first `i` names.
pub open spec fn spec_join_comma(ts: Seq<Seq<char>>, i: int) -> Seq<char>
    decreases i,
{
    if i <= 0 {
        Seq::empty()
    } else if i == 1 {
        ts[0]
    } else {
        spec_join_comma(ts, i - 1) + ", "@ + ts[i - 1]
    }
}

/// The multi-line form of the first `i` names: one indented name per line,
/// the last without the trailing space.
pub open spec fn spec_multiline(ts: Seq<Seq<char>>, i: int) -> Seq<char>
    decreases i,
{
    if i <= 0 {
        Seq::empty()
    } else {
        spec_multiline(ts, i - 1) + "    "@ + ts[i - 1] + (if i == ts.len() {
            ",\n"@
        } else {
            ", \n"@
        })
    }
}

/// One rendered import line for a module group, over its sorted and
/// deduplicated type names: a single name plainly, up to three in one
/// braced line, more in a multi-line braced block.
pub open spec fn spec_render_group(m: Seq<char>, types: Seq<Seq<char>>) -> Seq<char> {
    let ts = spec_dedup(spec_sort_strs(types));
    if ts.len() == 1 {
        "use crate::"@ + m + "::"@ + ts[0] + ";"@
    } else if ts.len() <= 3 {
        "use crate::"@ + m + "::{"@ + spec_join_comma(ts, ts.len() as int) + "};"@
    } else {
        "use crate::"@ + m + "::{\n"@ + spec_multiline(ts, ts.len() as int) + "};"@
    }
}

/// Renders one module group.
#[verifier::loop_isolation(false)]
fn render_group(m: &str, types: &Vec<String>) -> (r: String)
    ensures
        r@ == spec_render_group(m@, types.deep_view()),
{
    let sorted = sort_strings(types);
    let ts = dedup_strings(&sorted);
    let ghost tsv = spec_dedup(spec_sort_strs(types.deep_view()));
    let mut out = ("use crate::").to_owned();
    out.append(m);
    if ts.len() == 1 {
        out.append("::");
        out.append(ts[0].as_str());
        out.append(";");
        proof {
            assert(out@ =~= spec_render_group(m@, types.deep_view()));
        }
        out
    } else if ts.len() <= 3 {
        out.append("::{");
        let ghost mid = out@;
        let mut i: usize = 0;
        while i < ts.len()
            invariant
                i <= ts.len(),
                out@ == mid + spec_join_comma(tsv, i as int),
            decreases ts.len() - i,
        {
            if i > 0 {
                out.append(", ");
            }
            out.append(ts[i].as_str());
            i = i + 1;
        }
        out.append("};");
        proof {
            assert(out@ =~= spec_render_group(m@, types.deep_view()));
        }
        out
    } else {
        out.append("::{\n");
        let ghost mid = out@;
        let mut i: usize = 0;
        while i < ts.len()
            invariant
                i <= ts.len(),
                out@ == mid + spec_multiline(tsv, i as int),
            decreases ts.len() - i,
        {
            out.append("    ");
            out.append(ts[i].as_str());
            if i == ts.len() - 1 {
                out.append(",\n");
            } else {
                out.append(", \n");
            }
            i = i + 1;
        }
        out.append("};");
        proof {
            assert(out@ =~= spec_render_group(m@, types.deep_view()));
        }
        out
    }
}

/// The grouped and free-form parts of the first `i` import lines.
pub open spec fn spec_group_pass(imports: Seq<Seq<char>>, i: int) -> (
    Seq<(Seq<char>, Seq<Seq<char>>)>,
    Seq<Seq<char>>,
)
    decreases i,
{
    if i <= 0 {
        (Seq::empty(), Seq::empty())
    } else {
        let prev = spec_group_pass(imports, i - 1);
        match spec_parse_import(imports[i - 1]) {
            None => prev,
            Some(ImportKindV::Grouped { module, ty }) => (
                spec_group_insert(prev.0, module, ty),
                prev.1,
            ),
            Some(ImportKindV::Plain(p)) => (prev.0, prev.1.push(p)),
        }
    }
}

/// The rendered lines of the first `i` module groups.
pub open spec fn spec_render_groups(groups: Seq<(Seq<char>, Seq<Seq<char>>)>, i: int) -> Seq<
    Seq<char>,
>
    decreases i,
{
    if i <= 0 {
        Seq::empty()
    } else {
        spec_render_groups(groups, i - 1).push(
            spec_render_group(groups[i - 1].0, groups[i - 1].1),
        )
    }
}

/// The deterministic, deduplicated import list: crate-internal imports
/// grouped per module and ordered by module name, then all other lines in
/// sorted order.
pub open spec fn spec_optimize_imports(imports: Seq<Seq<char>>) -> Seq<Seq<char>> {
    let parts = spec_group_pass(imports, imports.len() as int);
    spec_render_groups(parts.0, parts.0.len() as int) + spec_sort_strs(parts.1)
}

/// Deduplicates, groups and deterministically orders the accumulated import
/// lines for emission.
#[verifier::loop_isolation(false)]
pub fn optimize_imports(imports: &Vec<String>) -> (r: Vec<String>)
    ensures
        r.deep_view() == spec_optimize_imports(imports.deep_view()),
{
    let ghost iv = imports.deep_view();
    let mut groups: Vec<(String, Vec<String>)> = Vec::new();
    let mut others: Vec<String> = Vec::new();
    let mut i: usize = 0;
    proof {
        assert(groups.deep_view() =~= spec_group_pass(iv, 0).0);
        assert(others.deep_view() =~= spec_group_pass(iv, 0).1);
    }
    while i < imports.len()
        invariant
            i <= imports.len(),
            groups.deep_view() == spec_group_pass(iv, i as int).0,
            others.deep_view() == spec_group_pass(iv, i as int).1,
        decreases imports.len() - i,
    {
        match parse_import(imports[i].as_str()) {
            None => {},
            Some(ImportKind::Grouped { module, ty }) => {
                insert_group(&mut groups, module, ty);
            },
            Some(ImportKind::Plain(p)) => {
                others.push(p);
            },
        }
        i = i + 1;
    }
    let mut r: Vec<String> = Vec::new();
    let ghost gv = groups.deep_view();
    let mut k: usize = 0;
    while k < groups.len()
        invariant
            k <= groups.len(),
            groups.deep_view() == gv,
            groups@.len() == gv.len(),
            r.deep_view() == spec_render_groups(gv, k as int),
        decreases groups.len() - k,
    {
        let line = render_group(groups[k].0.as_str(), &groups[k].1);
        r.push(line);
        k = k + 1;
    }
    let sorted_others = sort_strings(&others);
    let mut j: usize = 0;
    let ghost mid = r.deep_view();
    while j < sorted_others.len()
        invariant
            j <= sorted_others.len(),
            r.deep_view() == mid + sorted_others.deep_view().take(j as int),
        decreases sorted_others.len() - j,
    {
        r.push(sorted_others[j].clone());
        proof {
            assert(sorted_others.deep_view().take(j + 1) =~= sorted_others.deep_view().take(
                j as int,
            ).push(sorted_others.deep_view()[j as int]));
            assert(r.deep_view() =~= (mid + sorted_others.deep_view().take(j as int)).push(
                sorted_others.deep_view()[j as int],
            ));
            assert(r.deep_view() =~= mid + sorted_others.deep_view().take(j + 1));
        }
        j = j + 1;
    }
    proof {
        assert(sorted_others.deep_view().take(sorted_others.deep_view().len() as int)
            =~= sorted_others.deep_view());
        assert(r.deep_view() =~= spec_optimize_imports(imports.deep_view()));
    }
    r
}

/// The first `i` import lines, each ended with a line break.
pub open spec fn spec_joined_lines(lines: Seq<Seq<char>>, i: int) -> Seq<char>
    decreases i,
{
    if i <= 0 {
        Seq::empty()
    } else {
        spec_joined_lines(lines, i - 1) + lines[i - 1] + "\n"@
    }
}

/// The message kind under which the response slot of a pair is emitted: a
/// true response when a request stands beside it; for a standalone struct,
/// whatever its own name says.
pub open spec fn spec_response_kind(p: PairV) -> Seq<char> {
    if p.request is None {
        let n = p.response.unwrap().name;
        if ends_with_spec(n, "Request"@) {
            "request"@
        } else if ends_with_spec(n, "Response"@) {
            "response"@
        } else {
            "message"@
        }
    } else {
        "response"@
    }
}

/// The file name a pair is emitted under.
pub open spec fn spec_paired_filename(p: PairV) -> Seq<char> {
    snake_of(p.base_name) + ".rs"@
}

/// The whole source text of one emitted file: the optimized imports, a blank
/// line, then the request struct and the response or standalone struct.
#[verifier::opaque]
pub open spec fn spec_paired_code(p: PairV) -> Seq<char> {
    let opt = spec_optimize_imports(p.combined_imports);
    let imports_txt = spec_joined_lines(opt, opt.len() as int) + "\n"@;
    let req_part: Seq<char> = match p.request {
        Some(r) => spec_struct_code(r, "request"@) + "\n"@,
        None => Seq::empty(),
    };
    let resp_part: Seq<char> = match p.response {
        Some(r) => spec_struct_code(r, spec_response_kind(p)),
        None => Seq::empty(),
    };
    imports_txt + req_part + resp_part
}

/// Generates one file for a message pair: its snake-case file name and its
/// source text.
#[verifier::loop_isolation(false)]
pub fn generate_paired_file(pair: &MessagePair) -> (r: (String, String))
    ensures
        r.0@ == spec_paired_filename(pair@),
        r.1@ == spec_paired_code(pair@),
{
    let mut filename = to_snake_case(pair.base_name.as_str());
    filename.append(".rs");
    let mut code = String::new();
    let optimized = optimize_imports(&pair.combined_imports);
    let ghost opt = spec_optimize_imports(pair@.combined_imports);
    let mut i: usize = 0;
    while i < optimized.len()
        invariant
            i <= optimized.len(),
            code@ == spec_joined_lines(opt, i as int),
        decreases optimized.len() - i,
    {
        code.append(optimized[i].as_str());
        code.append("\n");
        i = i + 1;
    }
    code.append("\n");
    match &pair.request {
        Some(request) => {
            let sc = generate_struct_code(request, "request");
            code.append(sc.as_str());
            code.append("\n");
        },
        None => {},
    }
    match &pair.response {
        Some(response) => {
            let message_type: &str = if pair.request.is_none() {
                if str_ends_with(response.name.as_str(), "Request") {
                    "request"
                } else if str_ends_with(response.name.as_str(), "Response") {
                    "response"
                } else {
                    "message"
                }
            } else {
                "response"
            };
            proof {
                assert(message_type@ == spec_response_kind(pair@));
            }
            let sc = generate_struct_code(response, message_type);
            code.append(sc.as_str());
        },
        None => {},
    }
    proof {
        reveal(spec_paired_code);
        assert(code@ =~= spec_paired_code(pair@));
    }
    (filename, code)
}

/// One module entry of the aggregation file: its snake-case module name, its
/// base name, and whether it is a paired message.
pub open spec fn spec_mod_entries(bases: Seq<Seq<char>>, paired: bool, i: int) -> Seq<
    (Seq<char>, Seq<char>, bool),
>
    decreases i,
{
    if i <= 0 {
        Seq::empty()
    } else {
        spec_mod_entries(bases, paired, i - 1).push((snake_of(bases[i - 1]), bases[i - 1], paired))
    }
}

/// Inserts a module entry after every entry whose module name is `lex_le` to
/// it: the stable insertion of the aggregation file's sort.
pub open spec fn spec_insert_mod(
    s: Seq<(Seq<char>, Seq<char>, bool)>,
    x: (Seq<char>, Seq<char>, bool),
) -> Seq<(Seq<char>, Seq<char>, bool)>
    decreases s.len(),
{
    if s.len() == 0 {
        seq![x]
    } else if lex_le(s[0].0, x.0) {
        seq![s[0]] + spec_insert_mod(s.skip(1), x)
    } else {
        seq![x] + s
    }
}

/// The module entries sorted by module name, stably.
pub open spec fn spec_sort_mods(s: Seq<(Seq<char>, Seq<char>, bool)>) -> Seq<
    (Seq<char>, Seq<char>, bool),
>
    decreases s.len(),
{
    if s.len() == 0 {
        Seq::empty()
    } else {
        spec_insert_mod(spec_sort_mods(s.drop_last()), s.last())
    }
}

proof fn lemma_insert_mod_at(
    s: Seq<(Seq<char>, Seq<char>, bool)>,
    x: (Seq<char>, Seq<char>, bool),
    i: int,
)
    requires
        0 <= i <= s.len(),
        forall|j: int| 0 <= j < i ==> lex_le(#[trigger] s[j].0, x.0),
        i < s.len() ==> !lex_le(s[i].0, x.0),
    ensures
        spec_insert_mod(s, x) == s.subrange(0, i) + seq![x] + s.subrange(i, s.len() as int),
    decreases s.len(),
{
    if s.len() == 0 {
        assert(spec_insert_mod(s, x) =~= s.subrange(0, i) + seq![x] + s.subrange(i, s.len() as int));
    } else if i == 0 {
        assert(spec_insert_mod(s, x) =~= s.subrange(0, 0) + seq![x] + s.subrange(0, s.len() as int));
    } else {
        lemma_insert_mod_at(s.skip(1), x, i - 1);
        assert(seq![s[0]] + (s.skip(1).subrange(0, i - 1) + seq![x] + s.skip(1).subrange(
            i - 1,
            s.len() - 1,
        )) =~= s.subrange(0, i) + seq![x] + s.subrange(i, s.len() as int));
    }
}

/// The module declarations of the first `i` entries.
pub open spec fn spec_mod_decls(mods: Seq<(Seq<char>, Seq<char>, bool)>, i: int) -> Seq<char>
    decreases i,
{
    if i <= 0 {
        Seq::empty()
    } else {
        spec_mod_decls(mods, i - 1) + "pub mod "@ + mods[i - 1].0 + ";\n"@
    }
}

/// The re-exports of the paired messages among the first `i` entries.
pub open spec fn spec_paired_exports(mods: Seq<(Seq<char>, Seq<char>, bool)>, i: int) -> Seq<char>
    decreases i,
{
    if i <= 0 {
        Seq::empty()
    } else {
        spec_paired_exports(mods, i - 1) + (if mods[i - 1].2 {
            "pub use "@ + mods[i - 1].0 + "::{"@ + mods[i - 1].1 + "Request, "@ + mods[i - 1].1
                + "Response};\n"@
        } else {
            Seq::<char>::empty()
        })
    }
}

/// The re-exports of the standalone messages among the first `i` entries.
pub open spec fn spec_standalone_exports(mods: Seq<(Seq<char>, Seq<char>, bool)>, i: int) -> Seq<
    char,
>
    decreases i,
{
    if i <= 0 {
        Seq::empty()
    } else {
        spec_standalone_exports(mods, i - 1) + (if !mods[i - 1].2 {
            "pub use "@ + mods[i - 1].0 + "::"@ + mods[i - 1].1 + ";\n"@
        } else {
            Seq::<char>::empty()
        })
    }
}

/// The aggregation file over the paired and standalone base names: module
/// declarations sorted by module name, a blank line, then the paired
/// re-exports and the standalone re-exports.
#[verifier::opaque]
pub open spec fn spec_mod_file(pairs: Seq<Seq<char>>, standalones: Seq<Seq<char>>) -> Seq<char> {
    let entries = spec_mod_entries(pairs, true, pairs.len() as int) + spec_mod_entries(
        standalones,
        false,
        standalones.len() as int,
    );
    let mods = spec_sort_mods(entries);
    spec_mod_decls(mods, mods.len() as int) + "\n"@ + spec_paired_exports(
        mods,
        mods.len() as int,
    ) + spec_standalone_exports(mods, mods.len() as int)
}

/// Generates the aggregation file enumerating and re-exporting all generated
/// modules.
#[verifier::loop_isolation(false)]
#[verifier::rlimit(60)]
pub fn generate_mod_file(message_pairs: &Vec<String>, standalone_messages: &Vec<String>) -> (r:
    String)
    ensures
        r@ == spec_mod_file(message_pairs.deep_view(), standalone_messages.deep_view()),
{
    let ghost pv = message_pairs.deep_view();
    let ghost sv = standalone_messages.deep_view();
    let mut entries: Vec<(String, String, bool)> = Vec::new();
    let mut i: usize = 0;
    while i < message_pairs.len()
        invariant
            i <= message_pairs.len(),
            entries.deep_view() == spec_mod_entries(pv, true, i as int),
        decreases message_pairs.len() - i,
    {
        let base = &message_pairs[i];
        let module_name = to_snake_case(base.as_str());
        entries.push((module_name, base.clone(), true));
        proof {
            assert(entries.deep_view() =~= spec_mod_entries(pv, true, i as int).push(
                (snake_of(pv[i as int]), pv[i as int], true),
            ));
        }
        i = i + 1;
    }
    let ghost paired_entries = entries.deep_view();
    let mut j: usize = 0;
    while j < standalone_messages.len()
        invariant
            j <= standalone_messages.len(),
            entries.deep_view() == paired_entries + spec_mod_entries(sv, false, j as int),
        decreases standalone_messages.len() - j,
    {
        let base = &standalone_messages[j];
        let module_name = to_snake_case(base.as_str());
        entries.push((module_name, base.clone(), false));
        proof {
            assert(entries.deep_view() =~= (paired_entries + spec_mod_entries(
                sv,
                false,
                j as int,
            )).push((snake_of(sv[j as int]), sv[j as int], false)));
            assert(entries.deep_view() =~= paired_entries + spec_mod_entries(
                sv,
                false,
                j as int,
            ).push((snake_of(sv[j as int]), sv[j as int], false)));
        }
        j = j + 1;
    }
    let ghost ev = entries.deep_view();
    // sort the entries by module name, stably
    let mut mods: Vec<(String, String, bool)> = Vec::new();
    let mut n: usize = 0;
    while n < entries.len()
        invariant
            n <= entries.len(),
            entries.deep_view() == ev,
            entries@.len() == ev.len(),
            mods.deep_view() == spec_sort_mods(ev.subrange(0, n as int)),
        decreases entries.len() - n,
    {
        let x0 = entries[n].0.clone();
        let x1 = entries[n].1.clone();
        let x2 = entries[n].2;
        let mut k: usize = 0;
        while k < mods.len() && str_lex_le(mods[k].0.as_str(), x0.as_str())
            invariant
                k <= mods.len(),
                forall|j2: int| 0 <= j2 < k ==> lex_le(#[trigger] mods.deep_view()[j2].0, x0@),
            decreases mods.len() - k,
        {
            k = k + 1;
        }
        proof {
            lemma_insert_mod_at(mods.deep_view(), (x0@, x1@, x2), k as int);
        }
        let ghost old_mods = mods.deep_view();
        mods.insert(k, (x0, x1, x2));
        proof {
            assert(mods.deep_view() =~~= old_mods.subrange(0, k as int) + seq![
                (ev[n as int].0, ev[n as int].1, ev[n as int].2),
            ] + old_mods.subrange(k as int, old_mods.len() as int));
            assert((ev[n as int].0, ev[n as int].1, ev[n as int].2) == ev[n as int]);
            assert(ev.subrange(0, n + 1).drop_last() =~= ev.subrange(0, n as int));
        }
        n = n + 1;
    }
    proof {
        assert(ev.subrange(0, ev.len() as int) =~= ev);
    }
    let ghost mv = mods.deep_view();
    let mut code = String::new();
    let mut a: usize = 0;
    while a < mods.len()
        invariant
            a <= mods.len(),
            mods.deep_view() == mv,
            mods@.len() == mv.len(),
            code@ == spec_mod_decls(mv, a as int),
        decreases mods.len() - a,
    {
        code.append("pub mod ");
        code.append(mods[a].0.as_str());
        code.append(";\n");
        a = a + 1;
    }
    code.append("\n");
    let ghost mid = code@;
    let mut b: usize = 0;
    while b < mods.len()
        invariant
            b <= mods.len(),
            mods.deep_view() == mv,
            mods@.len() == mv.len(),
            code@ == mid + spec_paired_exports(mv, b as int),
        decreases mods.len() - b,
    {
        if mods[b].2 {
            code.append("pub use ");
            code.append(mods[b].0.as_str());
            code.append("::{");
            code.append(mods[b].1.as_str());
            code.append("Request, ");
            code.append(mods[b].1.as_str());
            code.append("Response};\n");
        }
        b = b + 1;
    }
    let ghost mid2 = code@;
    let mut c: usize = 0;
    while c < mods.len()
        invariant
            c <= mods.len(),
            mods.deep_view() == mv,
            mods@.len() == mv.len(),
            code@ == mid2 + spec_standalone_exports(mv, c as int),
        decreases mods.len() - c,
    {
        if !mods[c].2 {
            code.append("pub use ");
            code.append(mods[c].0.as_str());
            code.append("::");
            code.append(mods[c].1.as_str());
            code.append(";\n");
        }
        c = c + 1;
    }
    proof {
        reveal(spec_mod_file);
        assert(code@ =~= spec_mod_file(pv, sv));
    }
    code
}

} // verus!
