//! The library-wide laws: what holds of every input, proved once and for
//! all over the same specifications the executable functions are verified
//! against.

use vstd::prelude::*;
use crate::casing::snake_of;
use crate::strutil::{ends_with_spec, spec_add_unique, spec_u64_str};
use crate::types::{StructV, PairV, pair_is_complete, spec_merge_imports};
use crate::fieldorder::spec_field_order;
use crate::jsonval::json_parse_of;
use crate::parser::{SchemaNode, spec_message_type, spec_assemble, spec_lookup_prop,
    spec_fields_ordered, spec_node_imports, spec_add_opt, spec_base_imports, node_matches,
    spec_max_schema_depth, lemma_assemble_of_matching_nodes};
use crate::generator::{spec_serde_attrs, spec_validation_attrs, spec_dedup, spec_group_pass,
    spec_group_insert, ImportKindV, spec_parse_import, spec_render_groups, spec_mod_file};
use crate::generator::{spec_paired_filename, spec_paired_code};
use crate::processor::{ProcV, spec_output_files, spec_fill_pair, spec_empty_pair,
    spec_add_struct, spec_find_pair_from, spec_count_complete, spec_generated_bases,
    spec_incomplete_bases, spec_paired_bases, spec_standalone_bases};

verus! {

/// Regeneration from unchanged input is byte-identical, back half: every
/// emitted text is a mathematical function of the collected pairs and the
/// configuration alone, so two runs over equal state produce equal files,
/// equal file names, and an equal aggregation file. The front half —
/// unchanged schema files collect equal state — is
/// [`lemma_intake_deterministic`].
pub proof fn lemma_regeneration_byte_identical(p: ProcV, q: ProcV)
    requires
        p.pairs == q.pairs,
        p.config.generate_mod_file == q.config.generate_mod_file,
    ensures
        spec_output_files(p.pairs, p.pairs.len() as int) == spec_output_files(
            q.pairs,
            q.pairs.len() as int,
        ),
        spec_mod_file(
            spec_paired_bases(p.pairs, p.pairs.len() as int),
            spec_standalone_bases(p.pairs, p.pairs.len() as int),
        ) == spec_mod_file(
            spec_paired_bases(q.pairs, q.pairs.len() as int),
            spec_standalone_bases(q.pairs, q.pairs.len() as int),
        ),
{
}

/// Regeneration from unchanged input is byte-identical, front half: taking
/// in one schema file is deterministic. Parsing is a function of the text
/// (`json_parse_of`), reading the tree pins every witness node to it
/// (`node_matches`), and any two pinned nodes assemble and land alike — so
/// equal texts under equal stems move equal pair lists to equal pair lists.
pub proof fn lemma_intake_deterministic(
    pairs: Seq<PairV>,
    stem: Seq<char>,
    content: Seq<char>,
    n1: SchemaNode,
    n2: SchemaNode,
)
    requires
        json_parse_of(content) is Some,
        node_matches(n1, json_parse_of(content).unwrap(), spec_max_schema_depth()),
        node_matches(n2, json_parse_of(content).unwrap(), spec_max_schema_depth()),
    ensures
        spec_add_struct(
            pairs,
            spec_message_type(stem).0,
            spec_message_type(stem).1,
            spec_assemble(n1, stem, content),
        ) == spec_add_struct(
            pairs,
            spec_message_type(stem).0,
            spec_message_type(stem).1,
            spec_assemble(n2, stem, content),
        ),
{
    lemma_assemble_of_matching_nodes(
        n1,
        n2,
        json_parse_of(content).unwrap(),
        spec_max_schema_depth(),
        stem,
        content,
    );
}

/// The fields of the ordered pass, as far as every ordered name resolves:
/// one field per name, carrying that name as its original name, in order.
proof fn lemma_fields_ordered_names(
    props: Seq<(String, SchemaNode)>,
    required: Seq<Seq<char>>,
    order: Seq<Seq<char>>,
    imports: Seq<Seq<char>>,
    i: int,
)
    requires
        0 <= i <= order.len(),
        forall|k: int| 0 <= k < i ==> spec_lookup_prop(props, #[trigger] order[k]) is Some,
    ensures
        spec_fields_ordered(props, required, order, imports, i).0.len() == i,
        forall|k: int|
            0 <= k < i ==> #[trigger] spec_fields_ordered(
                props,
                required,
                order,
                imports,
                i,
            ).0[k].original_name == order[k],
    decreases i,
{
    if i > 0 {
        lemma_fields_ordered_names(props, required, order, imports, i - 1);
    }
}

/// Order preservation: when the raw text determines a property order and the
/// parsed tree holds every ordered name, the assembled struct's fields stand
/// exactly in that textual order — never alphabetical or map order.
pub proof fn lemma_field_order_preserved(node: SchemaNode, name: Seq<char>, content: Seq<char>)
    requires
        spec_field_order(content).len() > 0,
        forall|k: int|
            0 <= k < spec_field_order(content).len() ==> spec_lookup_prop(
                node.properties@,
                #[trigger] spec_field_order(content)[k],
            ) is Some,
    ensures
        spec_assemble(node, name, content).fields.len() == spec_field_order(content).len(),
        forall|k: int|
            0 <= k < spec_field_order(content).len() ==> #[trigger] spec_assemble(
                node,
                name,
                content,
            ).fields[k].original_name == spec_field_order(content)[k],
{
    let order = spec_field_order(content);
    lemma_fields_ordered_names(
        node.properties@,
        node.required.deep_view(),
        order,
        spec_base_imports(),
        order.len() as int,
    );
}

/// Pairing: once a request and a response have both landed under one base
/// name, the pair is complete, whatever arrived before.
pub proof fn lemma_pairing_complete(p: PairV, req: StructV, resp: StructV)
    ensures
        pair_is_complete(spec_fill_pair(spec_fill_pair(p, true, req), false, resp)),
        pair_is_complete(spec_fill_pair(spec_fill_pair(p, false, resp), true, req)),
{
}

/// Pairing: a base name that has only seen its request half is not complete,
/// and is therefore excluded from output.
pub proof fn lemma_half_pair_incomplete(base: Seq<char>, req: StructV)
    ensures
        !pair_is_complete(spec_fill_pair(spec_empty_pair(base), true, req)),
{
}

/// Where the search from position `i` lands: at the first pair holding the
/// base name, or one past the end.
proof fn lemma_find_pair_from_props(pairs: Seq<PairV>, base: Seq<char>, i: int)
    requires
        0 <= i <= pairs.len(),
    ensures
        i <= spec_find_pair_from(pairs, base, i) <= pairs.len(),
        spec_find_pair_from(pairs, base, i) < pairs.len() ==> pairs[spec_find_pair_from(
            pairs,
            base,
            i,
        )].base_name == base,
        forall|j: int|
            i <= j < spec_find_pair_from(pairs, base, i) ==> (#[trigger] pairs[j]).base_name
                != base,
    decreases pairs.len() - i,
{
    if i < pairs.len() && pairs[i].base_name != base {
        lemma_find_pair_from_props(pairs, base, i + 1);
    }
}

/// The search finds exactly the first position holding the base name.
proof fn lemma_find_pair_at(pairs: Seq<PairV>, base: Seq<char>, idx: int, i: int)
    requires
        0 <= i <= idx < pairs.len(),
        pairs[idx].base_name == base,
        forall|j: int| i <= j < idx ==> (#[trigger] pairs[j]).base_name != base,
    ensures
        spec_find_pair_from(pairs, base, i) == idx,
    decreases idx - i,
{
    if i < idx {
        lemma_find_pair_at(pairs, base, idx, i + 1);
    }
}

/// Where one arriving struct lands: at the first pair of its base name, or
/// in a fresh pair at the end; every pair before it keeps its place and
/// carries another base name.
proof fn lemma_add_struct_located(
    pairs: Seq<PairV>,
    base: Seq<char>,
    is_request: bool,
    si: StructV,
)
    ensures
        ({
            let r = spec_add_struct(pairs, base, is_request, si);
            let f = spec_find_pair_from(pairs, base, 0);
            let idx = if f < pairs.len() {
                f
            } else {
                pairs.len() as int
            };
            &&& idx < r.len()
            &&& r[idx].base_name == base
            &&& r[idx] == spec_fill_pair(
                if f < pairs.len() {
                    pairs[f]
                } else {
                    spec_empty_pair(base)
                },
                is_request,
                si,
            )
            &&& spec_find_pair_from(r, base, 0) == idx
            &&& forall|j: int| 0 <= j < idx ==> r[j] == pairs[j]
        }),
{
    lemma_find_pair_from_props(pairs, base, 0);
    let r = spec_add_struct(pairs, base, is_request, si);
    let f = spec_find_pair_from(pairs, base, 0);
    let idx: int = if f < pairs.len() {
        f
    } else {
        pairs.len() as int
    };
    assert(r[idx].base_name == base);
    assert forall|j: int| 0 <= j < idx implies (#[trigger] r[j]).base_name != base by {
        assert(r[j] == pairs[j]);
    }
    lemma_find_pair_at(r, base, idx, 0);
}

/// Pairing at the processor: once the request and the response of one base
/// name have both been taken in, in either order, the pair that the base
/// name finds is complete and holds exactly those two structs.
pub proof fn lemma_processor_pairs_complete(
    pairs: Seq<PairV>,
    base: Seq<char>,
    req_si: StructV,
    resp_si: StructV,
)
    ensures
        ({
            let r = spec_add_struct(
                spec_add_struct(pairs, base, true, req_si),
                base,
                false,
                resp_si,
            );
            let idx = spec_find_pair_from(r, base, 0);
            &&& idx < r.len()
            &&& r[idx].request == Some(req_si)
            &&& r[idx].response == Some(resp_si)
            &&& pair_is_complete(r[idx])
        }),
{
    lemma_add_struct_located(pairs, base, true, req_si);
    let mid = spec_add_struct(pairs, base, true, req_si);
    lemma_add_struct_located(mid, base, false, resp_si);
}

/// Exactly the complete pairs are emitted: over any collected pair list,
/// one file per complete pair — as many files as complete pairs, each
/// complete pair's file (its snake-case name and its text) among them — and
/// every incomplete base name reported and skipped.
pub proof fn lemma_exactly_complete_pairs_emitted(pairs: Seq<PairV>, i: int)
    requires
        0 <= i <= pairs.len(),
    ensures
        spec_output_files(pairs, i).len() == spec_count_complete(pairs, i),
        spec_generated_bases(pairs, i).len() == spec_count_complete(pairs, i),
        spec_incomplete_bases(pairs, i).len() == i - spec_count_complete(pairs, i),
        forall|j: int|
            0 <= j < i && pair_is_complete(#[trigger] pairs[j]) ==> spec_output_files(
                pairs,
                i,
            ).contains((spec_paired_filename(pairs[j]), spec_paired_code(pairs[j])))
                && spec_generated_bases(pairs, i).contains(pairs[j].base_name),
        forall|j: int|
            0 <= j < i && !pair_is_complete(#[trigger] pairs[j]) ==> spec_incomplete_bases(
                pairs,
                i,
            ).contains(pairs[j].base_name),
    decreases i,
{
    if i > 0 {
        lemma_exactly_complete_pairs_emitted(pairs, i - 1);
        assert forall|j: int|
            0 <= j < i && pair_is_complete(#[trigger] pairs[j]) implies spec_output_files(
            pairs,
            i,
        ).contains((spec_paired_filename(pairs[j]), spec_paired_code(pairs[j])))
            && spec_generated_bases(pairs, i).contains(pairs[j].base_name) by {
            let prev = spec_output_files(pairs, i - 1);
            let prevg = spec_generated_bases(pairs, i - 1);
            if j < i - 1 {
                let w = choose|w: int|
                    0 <= w < prev.len() && prev[w] == (
                    spec_paired_filename(pairs[j]),
                    spec_paired_code(pairs[j]),
                    );
                assert(spec_output_files(pairs, i)[w] == (
                spec_paired_filename(pairs[j]),
                spec_paired_code(pairs[j]),
                ));
                let wg = choose|wg: int| 0 <= wg < prevg.len() && prevg[wg] == pairs[j].base_name;
                assert(spec_generated_bases(pairs, i)[wg] == pairs[j].base_name);
            } else {
                assert(spec_output_files(pairs, i)[prev.len() as int] == (
                spec_paired_filename(pairs[i - 1]),
                spec_paired_code(pairs[i - 1]),
                ));
                assert(spec_generated_bases(pairs, i)[prevg.len() as int]
                    == pairs[i - 1].base_name);
            }
        }
        assert forall|j: int|
            0 <= j < i && !pair_is_complete(#[trigger] pairs[j]) implies spec_incomplete_bases(
            pairs,
            i,
        ).contains(pairs[j].base_name) by {
            let inc = spec_incomplete_bases(pairs, i - 1);
            if j < i - 1 {
                let w = choose|w: int| 0 <= w < inc.len() && inc[w] == pairs[j].base_name;
                assert(spec_incomplete_bases(pairs, i)[w] == pairs[j].base_name);
            } else {
                assert(spec_incomplete_bases(pairs, i)[inc.len() as int]
                    == pairs[i - 1].base_name);
            }
        }
    }
}

/// Standalone handling at the processor: a file whose stem carries neither
/// suffix lands under its whole name, and the pair it finds is complete on
/// its own.
pub proof fn lemma_processor_standalone_complete(pairs: Seq<PairV>, stem: Seq<char>, si: StructV)
    requires
        si.name == stem,
        !ends_with_spec(stem, "Request"@),
        !ends_with_spec(stem, "Response"@),
    ensures
        spec_message_type(stem) == (stem, false),
        ({
            let r = spec_add_struct(pairs, stem, spec_message_type(stem).1, si);
            let idx = spec_find_pair_from(r, stem, 0);
            &&& idx < r.len()
            &&& r[idx].response == Some(si)
            &&& pair_is_complete(r[idx])
        }),
{
    lemma_add_struct_located(pairs, stem, false, si);
}

/// Standalone handling: a file whose stem carries neither suffix keeps its
/// whole name as base name, and its one struct completes the pair by itself.
pub proof fn lemma_standalone_complete(stem: Seq<char>, si: StructV)
    requires
        si.name == stem,
        !ends_with_spec(stem, "Request"@),
        !ends_with_spec(stem, "Response"@),
    ensures
        spec_message_type(stem) == (stem, false),
        pair_is_complete(
            spec_fill_pair(spec_empty_pair(stem), spec_message_type(stem).1, si),
        ),
{
}

/// Constraint carry-through: a validated string field with both length
/// bounds is emitted with a length constraint holding both, and one with
/// only a lower numeric bound with a lower-bound-only range constraint.
pub proof fn lemma_constraints_carried(f: crate::types::FieldV, a: u64, b: u64)
    ensures
        f.needs_validation && f.rust_type == "String"@ && f.min_length == Some(a) && f.max_length
            == Some(b) ==> spec_validation_attrs(f) == "    #[validate(length(min = "@
            + spec_u64_str(a as nat) + ", max = "@ + spec_u64_str(b as nat) + "))]\n"@,
        f.needs_validation && f.rust_type == "i32"@ && f.min_value is Some && f.max_value is None
            ==> spec_validation_attrs(f) == "    #[validate(range(min = "@
            + crate::dec::spec_dec_str(f.min_value.unwrap()) + "))]\n"@,
{
    reveal(spec_validation_attrs);
    if f.needs_validation && f.rust_type == "i32"@ {
        reveal_strlit("String");
        reveal_strlit("i32");
        reveal_strlit("Vec<");
        reveal_strlit("Type");
        reveal_strlit("EnumType");
        assert(!ends_with_spec(f.rust_type, "Type"@));
    }
}

/// Rename correctness: an identifier that the case conversion alone can take
/// back to the original key carries no rename annotation; one that diverges
/// beyond the conversion carries exactly the original key.
pub proof fn lemma_rename_annotation(f: crate::types::FieldV)
    ensures
        f.name == snake_of(f.original_name) ==> spec_serde_attrs(f) == (if f.is_optional {
            "    #[serde(skip_serializing_if = \"Option::is_none\")]\n"@
        } else {
            Seq::<char>::empty()
        }),
        f.name != f.original_name && f.name != snake_of(f.original_name) && !f.is_optional
            ==> spec_serde_attrs(f) == "    #[serde(rename = \""@ + f.original_name + "\")]\n"@,
{
    reveal(spec_serde_attrs);
}

/// No string occurs twice.
pub open spec fn distinct_strs(s: Seq<Seq<char>>) -> bool {
    forall|i: int, j: int| 0 <= i < j < s.len() ==> s[i] != s[j]
}

/// Inserting into an insertion-ordered set keeps it duplicate-free.
pub proof fn lemma_add_unique_distinct(s: Seq<Seq<char>>, x: Seq<char>)
    requires
        distinct_strs(s),
    ensures
        distinct_strs(spec_add_unique(s, x)),
{
    if !s.contains(x) {
        assert forall|i: int, j: int|
            0 <= i < j < spec_add_unique(s, x).len() implies spec_add_unique(s, x)[i]
            != spec_add_unique(s, x)[j] by {
            if j == s.len() {
                assert(spec_add_unique(s, x)[j] == x);
                assert(spec_add_unique(s, x)[i] == s[i]);
                if s[i] == x {
                    assert(s.contains(x));
                }
            }
        }
    }
}

proof fn lemma_add_opt_distinct(s: Seq<Seq<char>>, o: Option<Seq<char>>)
    requires
        distinct_strs(s),
    ensures
        distinct_strs(spec_add_opt(s, o)),
{
    match o {
        Some(x) => lemma_add_unique_distinct(s, x),
        None => {},
    }
}

/// Import registration is idempotent and never duplicates: every import set
/// a schema node accumulates onto a duplicate-free set stays duplicate-free.
pub proof fn lemma_node_imports_distinct(n: SchemaNode, imports: Seq<Seq<char>>)
    requires
        distinct_strs(imports),
    ensures
        distinct_strs(spec_node_imports(n, imports)),
    decreases n,
{
    if n.reference is Some {
        lemma_add_opt_distinct(imports, crate::parser::spec_handle_ref(n.reference.unwrap()@).2);
    } else if n.schema_type is Some {
        let t = n.schema_type.unwrap()@;
        if t == "string"@ {
            if n.format is Some && n.format.unwrap()@ == "date-time"@ {
                lemma_add_unique_distinct(imports, "use chrono::{DateTime, Utc};"@);
            }
        } else if t == "integer"@ {
        } else if t == "number"@ {
            lemma_add_unique_distinct(imports, "use rust_decimal::Decimal;"@);
        } else if t == "boolean"@ {
        } else if t == "array"@ {
            if n.items is Some {
                lemma_node_imports_distinct(*n.items.unwrap(), imports);
            } else {
                lemma_add_unique_distinct(imports, "use serde_json::Value;"@);
            }
        } else if t == "object"@ {
            lemma_add_unique_distinct(imports, "use serde_json::Value;"@);
        }
    }
}

/// Merging one import set into a duplicate-free one keeps it duplicate-free:
/// a dependency identifier appears once however many fields need it.
pub proof fn lemma_merge_imports_distinct(a: Seq<Seq<char>>, b: Seq<Seq<char>>)
    requires
        distinct_strs(a),
    ensures
        distinct_strs(spec_merge_imports(a, b)),
    decreases b.len(),
{
    if b.len() > 0 {
        lemma_merge_imports_distinct(a, b.drop_last());
        lemma_add_unique_distinct(spec_merge_imports(a, b.drop_last()), b.last());
    }
}

/// An element of the deduplicated sequence is an element of the original.
proof fn lemma_dedup_membership(s: Seq<Seq<char>>, i: int)
    requires
        0 <= i < spec_dedup(s).len(),
    ensures
        s.contains(spec_dedup(s)[i]),
    decreases s.len(),
{
    if s.len() <= 1 {
    } else if s.last() == s[s.len() - 2] {
        lemma_dedup_membership(s.drop_last(), i);
        let w = choose|w: int| 0 <= w < s.drop_last().len() && s.drop_last()[w] == spec_dedup(
            s,
        )[i];
        assert(s[w] == spec_dedup(s)[i]);
    } else {
        if i < spec_dedup(s).len() - 1 {
            lemma_dedup_membership(s.drop_last(), i);
            let w = choose|w: int|
                0 <= w < s.drop_last().len() && s.drop_last()[w] == spec_dedup(s.drop_last())[i];
            assert(s[w] == spec_dedup(s)[i]);
        } else {
            assert(spec_dedup(s)[i] == s.last());
            assert(s.contains(s[s.len() - 1]));
        }
    }
}

/// Deduplicating a sorted sequence leaves each string exactly once: a
/// dependency identifier accumulated many times is emitted once.
pub proof fn lemma_dedup_sorted_distinct(s: Seq<Seq<char>>)
    requires
        crate::strutil::sorted_strs(s),
    ensures
        distinct_strs(spec_dedup(s)),
    decreases s.len(),
{
    if s.len() > 1 {
        assert forall|i: int, j: int|
            0 <= i < j < s.drop_last().len() implies crate::strutil::lex_le(
            #[trigger] s.drop_last()[i],
            #[trigger] s.drop_last()[j],
        ) by {
            assert(s.drop_last()[i] == s[i] && s.drop_last()[j] == s[j]);
        }
        lemma_dedup_sorted_distinct(s.drop_last());
        if s.last() != s[s.len() - 2] {
            let d = spec_dedup(s);
            let prev = spec_dedup(s.drop_last());
            assert forall|i: int, j: int| 0 <= i < j < d.len() implies d[i] != d[j] by {
                if j == d.len() - 1 {
                    assert(d[j] == s.last());
                    assert(d[i] == prev[i]);
                    lemma_dedup_membership(s.drop_last(), i);
                    let w = choose|w: int|
                        0 <= w < s.drop_last().len() && s.drop_last()[w] == prev[i];
                    if d[i] == s.last() {
                        assert(s[w] == s.last());
                        if w < s.len() - 2 {
                            assert(crate::strutil::lex_le(s[w], s[s.len() - 2]));
                            assert(crate::strutil::lex_le(s[s.len() - 2], s[s.len() - 1]));
                            crate::strutil::lemma_lex_le_antisym(s[s.len() - 2], s[s.len() - 1]);
                        }
                    }
                } else {
                    assert(d[i] == prev[i] && d[j] == prev[j]);
                }
            }
        }
    }
}

/// The type names inside one rendered import entry are pairwise distinct.
pub proof fn lemma_types_once_per_entry(types: Seq<Seq<char>>)
    ensures
        distinct_strs(spec_dedup(crate::strutil::spec_sort_strs(types))),
{
    crate::strutil::lemma_sort_strs_sorted(types);
    lemma_dedup_sorted_distinct(crate::strutil::spec_sort_strs(types));
}

/// The grouped imports are sorted by module name, each module once.
pub open spec fn sorted_unique_groups(groups: Seq<(Seq<char>, Seq<Seq<char>>)>) -> bool {
    forall|i: int, j: int|
        0 <= i < j < groups.len() ==> crate::strutil::lex_le(
            (#[trigger] groups[i]).0,
            (#[trigger] groups[j]).0,
        ) && groups[i].0 != groups[j].0
}

/// Inserting one more type keeps the grouped imports sorted by module name
/// with each module standing once, and introduces no module key but the one
/// inserted.
pub proof fn lemma_group_insert_sorted(
    groups: Seq<(Seq<char>, Seq<Seq<char>>)>,
    m: Seq<char>,
    t: Seq<char>,
)
    requires
        sorted_unique_groups(groups),
    ensures
        sorted_unique_groups(spec_group_insert(groups, m, t)),
        forall|i: int|
            0 <= i < spec_group_insert(groups, m, t).len() ==> (#[trigger] spec_group_insert(
                groups,
                m,
                t,
            )[i]).0 == m || exists|k: int|
                0 <= k < groups.len() && spec_group_insert(groups, m, t)[i].0 == (
                #[trigger] groups[k]).0,
    decreases groups.len(),
{
    let r = spec_group_insert(groups, m, t);
    if groups.len() == 0 {
        assert(r[0].0 == m);
    } else if groups[0].0 == m {
        assert forall|i: int| 0 <= i < r.len() implies (#[trigger] r[i]).0 == groups[i].0 by {
            if i > 0 {
                assert(r[i] == groups[i]);
            }
        }
        assert forall|i: int|
            0 <= i < r.len() implies (#[trigger] r[i]).0 == m || exists|k: int|
            0 <= k < groups.len() && r[i].0 == (#[trigger] groups[k]).0 by {
            assert(r[i].0 == groups[i].0);
        }
    } else if crate::strutil::lex_le(m, groups[0].0) {
        assert forall|i: int, j: int| 0 <= i < j < r.len() implies crate::strutil::lex_le(
            (#[trigger] r[i]).0,
            (#[trigger] r[j]).0,
        ) && r[i].0 != r[j].0 by {
            if i == 0 {
                assert(r[j] == groups[j - 1]);
                if j - 1 > 0 {
                    assert(crate::strutil::lex_le(groups[0].0, groups[j - 1].0));
                    crate::strutil::lemma_lex_le_trans(m, groups[0].0, groups[j - 1].0);
                    if m == groups[j - 1].0 {
                        crate::strutil::lemma_lex_le_antisym(m, groups[0].0);
                    }
                } else {
                    assert(crate::strutil::lex_le(m, groups[0].0));
                }
            } else {
                assert(r[i] == groups[i - 1] && r[j] == groups[j - 1]);
            }
        }
        assert forall|i: int|
            0 <= i < r.len() implies (#[trigger] r[i]).0 == m || exists|k: int|
            0 <= k < groups.len() && r[i].0 == (#[trigger] groups[k]).0 by {
            if i > 0 {
                assert(r[i] == groups[i - 1]);
                assert(r[i].0 == groups[i - 1].0);
            }
        }
    } else {
        crate::strutil::lemma_lex_le_total(m, groups[0].0);
        assert(crate::strutil::lex_le(groups[0].0, m));
        if groups[0].0 == m {
            crate::strutil::lemma_lex_le_refl(m);
            assert(false);
        }
        assert forall|i: int, j: int|
            0 <= i < j < groups.skip(1).len() implies crate::strutil::lex_le(
            (#[trigger] groups.skip(1)[i]).0,
            (#[trigger] groups.skip(1)[j]).0,
        ) && groups.skip(1)[i].0 != groups.skip(1)[j].0 by {
            assert(groups.skip(1)[i] == groups[i + 1]);
            assert(groups.skip(1)[j] == groups[j + 1]);
        }
        lemma_group_insert_sorted(groups.skip(1), m, t);
        let rs = spec_group_insert(groups.skip(1), m, t);
        assert(r == seq![groups[0]] + rs);
        assert forall|i: int|
            0 <= i < r.len() implies (#[trigger] r[i]).0 == m || exists|k: int|
            0 <= k < groups.len() && r[i].0 == (#[trigger] groups[k]).0 by {
            if i > 0 {
                assert(r[i] == rs[i - 1]);
                if rs[i - 1].0 != m {
                    let w = choose|w: int|
                        0 <= w < groups.skip(1).len() && rs[i - 1].0 == (#[trigger] groups.skip(
                            1,
                        )[w]).0;
                    assert(groups.skip(1)[w] == groups[w + 1]);
                    assert(r[i].0 == groups[w + 1].0);
                }
            } else {
                assert(r[0].0 == groups[0].0);
            }
        }
        assert forall|i: int, j: int| 0 <= i < j < r.len() implies crate::strutil::lex_le(
            (#[trigger] r[i]).0,
            (#[trigger] r[j]).0,
        ) && r[i].0 != r[j].0 by {
            if i == 0 {
                assert(r[j] == rs[j - 1]);
                if rs[j - 1].0 == m {
                    assert(crate::strutil::lex_le(groups[0].0, m));
                    assert(groups[0].0 != m);
                } else {
                    let w = choose|w: int|
                        0 <= w < groups.skip(1).len() && rs[j - 1].0 == (#[trigger] groups.skip(
                            1,
                        )[w]).0;
                    assert(groups.skip(1)[w] == groups[w + 1]);
                    assert(crate::strutil::lex_le(groups[0].0, groups[w + 1].0));
                    assert(groups[0].0 != groups[w + 1].0);
                }
            } else {
                assert(r[i] == rs[i - 1] && r[j] == rs[j - 1]);
            }
        }
    }
}

/// Import grouping: after the grouping pass the module keys are sorted and
/// pairwise distinct, so two resolved types from one originating module
/// collapse into a single combined import entry.
pub proof fn lemma_one_group_per_module(imports: Seq<Seq<char>>, i: int)
    requires
        0 <= i <= imports.len(),
    ensures
        sorted_unique_groups(spec_group_pass(imports, i).0),
    decreases i,
{
    if i > 0 {
        lemma_one_group_per_module(imports, i - 1);
        match spec_parse_import(imports[i - 1]) {
            Some(ImportKindV::Grouped { module, ty }) => {
                lemma_group_insert_sorted(spec_group_pass(imports, i - 1).0, module, ty);
            },
            _ => {},
        }
    }
}

/// Deterministic emission order: the sort applied to each group's type
/// names and to the free-form import lines really orders them
/// lexicographically, so repeated generation renders them identically.
pub proof fn lemma_emission_order_sorted(s: Seq<Seq<char>>)
    ensures
        crate::strutil::sorted_strs(crate::strutil::spec_sort_strs(s)),
{
    crate::strutil::lemma_sort_strs_sorted(s);
}

/// Each module group yields exactly one emitted import entry: the grouped
/// part of the optimized output has one line per distinct module.
pub proof fn lemma_one_entry_per_group(groups: Seq<(Seq<char>, Seq<Seq<char>>)>, i: int)
    requires
        0 <= i,
    ensures
        spec_render_groups(groups, i).len() == i,
    decreases i,
{
    if i > 0 {
        lemma_one_entry_per_group(groups, i - 1);
    }
}

} // verus!
