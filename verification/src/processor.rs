//! The driver over many schema files: collects one struct per file, groups
//! them into message pairs by base name, and produces everything the caller
//! has to write out.

use vstd::prelude::*;
use vstd::string::*;
use crate::config::Config;
use crate::generator::{spec_paired_filename, spec_paired_code, generate_paired_file,
    spec_mod_file, generate_mod_file};
use crate::jsonval::{parse_json, json_error_text, json_parse_of};
use crate::parser::{SchemaNode, spec_message_type, parse_message_type, spec_assemble,
    node_matches, spec_max_schema_depth, extract_struct_info_with_content};
use crate::strutil::str_eq;
use crate::types::{StructInfo, StructV, MessagePair, PairV, pair_is_complete, spec_merge_imports};

verus! {

/// Why a schema file could not be taken in.
#[derive(Debug)]
pub enum SchemaError {
    /// The file's text is not valid JSON; the payload says why.
    Parse(String),
}

/// The abstract value of a [`SchemaProcessor`].
pub ghost struct ProcV {
    pub config: crate::config::ConfigV,
    pub pairs: Seq<PairV>,
}

/// Collects schema files one by one and groups them into message pairs, in
/// first-encounter order of their base names.
pub struct SchemaProcessor {
    config: Config,
    pairs: Vec<MessagePair>,
}

impl View for SchemaProcessor {
    type V = ProcV;

    closed spec fn view(&self) -> ProcV {
        ProcV { config: self.config@, pairs: self.pairs.deep_view() }
    }
}

/// The first position holding the base name, or the length when none does.
pub open spec fn spec_find_pair_from(pairs: Seq<PairV>, base: Seq<char>, i: int) -> int
    decreases pairs.len() - i,
{
    if i < 0 || i >= pairs.len() {
        pairs.len() as int
    } else if pairs[i].base_name == base {
        i
    } else {
        spec_find_pair_from(pairs, base, i + 1)
    }
}

/// An empty pair under a base name.
pub open spec fn spec_empty_pair(base: Seq<char>) -> PairV {
    PairV { base_name: base, request: None, response: None, combined_imports: Seq::empty() }
}

/// A pair after one struct lands in it: the matching slot is overwritten
/// (last write wins) and the struct's imports join the combined set.
pub open spec fn spec_fill_pair(p: PairV, is_request: bool, si: StructV) -> PairV {
    PairV {
        base_name: p.base_name,
        request: if is_request {
            Some(si)
        } else {
            p.request
        },
        response: if is_request {
            p.response
        } else {
            Some(si)
        },
        combined_imports: spec_merge_imports(p.combined_imports, si.imports),
    }
}

/// The pair list after one struct arrives under its base name: an existing
/// pair is filled in place, a new base name opens a pair at the end.
pub open spec fn spec_add_struct(
    pairs: Seq<PairV>,
    base: Seq<char>,
    is_request: bool,
    si: StructV,
) -> Seq<PairV> {
    let idx = spec_find_pair_from(pairs, base, 0);
    if idx < pairs.len() {
        pairs.update(idx, spec_fill_pair(pairs[idx], is_request, si))
    } else {
        pairs.push(spec_fill_pair(spec_empty_pair(base), is_request, si))
    }
}

/// The number of complete pairs among the first `i`.
pub open spec fn spec_count_complete(pairs: Seq<PairV>, i: int) -> int
    decreases i,
{
    if i <= 0 {
        0
    } else {
        spec_count_complete(pairs, i - 1) + (if pair_is_complete(pairs[i - 1]) {
            1int
        } else {
            0int
        })
    }
}

/// A read-only summary of the collected pairs.
#[derive(Debug)]
pub struct ProcessorStats {
    pub total_pairs: usize,
    pub complete_pairs: usize,
    pub incomplete_pairs: usize,
}

impl SchemaProcessor {
    /// A processor with no schema files seen yet.
    pub fn new(config: Config) -> (r: SchemaProcessor)
        ensures
            r@.config == config@,
            r@.pairs == Seq::<PairV>::empty(),
    {
        let r = SchemaProcessor { config, pairs: Vec::new() };
        proof {
            assert(r.pairs.deep_view() =~= Seq::<PairV>::empty());
        }
        r
    }

    /// The configuration the processor runs under.
    pub fn config(&self) -> (r: &Config)
        ensures
            r@ == self@.config,
    {
        &self.config
    }

    /// The pairs collected so far, in first-encounter order.
    pub fn message_pairs(&self) -> (r: &Vec<MessagePair>)
        ensures
            r.deep_view() == self@.pairs,
    {
        &self.pairs
    }

    /// Takes one schema file in: the text is parsed, a struct is assembled
    /// under the file's stem with the field order the raw text determines,
    /// and it lands in the pair of its base name. This succeeds exactly when
    /// the text is valid JSON; on a parse error nothing changes. The witness
    /// node is pinned to the parsed tree, so what lands is determined by the
    /// file (see [`crate::laws::lemma_intake_deterministic`]).
    #[verifier::loop_isolation(false)]
    pub fn add_schema_file(&mut self, stem: &str, content: &str) -> (r: Result<(), SchemaError>)
        ensures
            final(self)@.config == old(self)@.config,
            r is Ok <==> json_parse_of(content@) is Some,
            r is Err ==> final(self)@.pairs == old(self)@.pairs,
            r is Ok ==> exists|node: SchemaNode|
                #[trigger] node_matches(
                    node,
                    json_parse_of(content@).unwrap(),
                    spec_max_schema_depth(),
                ) && final(self)@.pairs == spec_add_struct(
                    old(self)@.pairs,
                    spec_message_type(stem@).0,
                    spec_message_type(stem@).1,
                    spec_assemble(node, stem@, content@),
                ),
    {
        let parsed = match parse_json(content) {
            Ok(v) => v,
            Err(e) => {
                return Err(SchemaError::Parse(json_error_text(&e)));
            },
        };
        let si = extract_struct_info_with_content(&parsed, stem, content);
        let ghost node = choose|n: SchemaNode|
            #[trigger] node_matches(n, parsed, spec_max_schema_depth()) && si@ == spec_assemble(
                n,
                stem@,
                content@,
            );
        let (base, is_request) = parse_message_type(stem);
        let ghost pv = self.pairs.deep_view();
        let mut idx: usize = 0;
        while idx < self.pairs.len() && !str_eq(self.pairs[idx].base_name.as_str(), base.as_str())
            invariant
                0 <= idx <= pv.len(),
                self.pairs.deep_view() == pv,
                self.pairs@.len() == pv.len(),
                spec_find_pair_from(pv, base@, 0) == spec_find_pair_from(pv, base@, idx as int),
            decreases pv.len() - idx,
        {
            idx = idx + 1;
        }
        if idx < self.pairs.len() {
            let mut p = self.pairs.remove(idx);
            if is_request {
                p.add_request(si);
            } else {
                p.add_response(si);
            }
            self.pairs.insert(idx, p);
            proof {
                assert(self.pairs.deep_view() =~~= pv.update(
                    idx as int,
                    spec_fill_pair(pv[idx as int], is_request, spec_assemble(node, stem@, content@)),
                ));
            }
        } else {
            let mut p = MessagePair::new(base);
            if is_request {
                p.add_request(si);
            } else {
                p.add_response(si);
            }
            self.pairs.push(p);
            proof {
                assert(self.pairs.deep_view() =~~= pv.push(
                    spec_fill_pair(
                        spec_empty_pair(spec_message_type(stem@).0),
                        is_request,
                        spec_assemble(node, stem@, content@),
                    ),
                ));
            }
        }
        proof {
            assert(json_parse_of(content@) == Some(parsed));
            assert(node_matches(node, parsed, spec_max_schema_depth()) && si@ == spec_assemble(
                node,
                stem@,
                content@,
            ));
            assert(node_matches(node, json_parse_of(content@).unwrap(), spec_max_schema_depth()));
        }
        Ok(())
    }

    /// Counts the collected pairs and how many are complete.
    #[verifier::loop_isolation(false)]
    pub fn get_stats(&self) -> (r: ProcessorStats)
        ensures
            r.total_pairs == self@.pairs.len(),
            r.complete_pairs == spec_count_complete(self@.pairs, self@.pairs.len() as int),
            r.incomplete_pairs == r.total_pairs - r.complete_pairs,
    {
        let total = self.pairs.len();
        let mut complete: usize = 0;
        let mut i: usize = 0;
        while i < self.pairs.len()
            invariant
                i <= self.pairs@.len(),
                complete <= i,
                complete == spec_count_complete(self@.pairs, i as int),
            decreases self.pairs@.len() - i,
        {
            if self.pairs[i].is_complete() {
                complete = complete + 1;
            }
            i = i + 1;
        }
        ProcessorStats {
            total_pairs: total,
            complete_pairs: complete,
            incomplete_pairs: total - complete,
        }
    }
}

/// The emitted files of the first `i` pairs: one per complete pair.
pub open spec fn spec_output_files(pairs: Seq<PairV>, i: int) -> Seq<(Seq<char>, Seq<char>)>
    decreases i,
{
    if i <= 0 {
        Seq::empty()
    } else if pair_is_complete(pairs[i - 1]) {
        spec_output_files(pairs, i - 1).push(
            (spec_paired_filename(pairs[i - 1]), spec_paired_code(pairs[i - 1])),
        )
    } else {
        spec_output_files(pairs, i - 1)
    }
}

/// The base names of the complete pairs among the first `i`.
pub open spec fn spec_generated_bases(pairs: Seq<PairV>, i: int) -> Seq<Seq<char>>
    decreases i,
{
    if i <= 0 {
        Seq::empty()
    } else if pair_is_complete(pairs[i - 1]) {
        spec_generated_bases(pairs, i - 1).push(pairs[i - 1].base_name)
    } else {
        spec_generated_bases(pairs, i - 1)
    }
}

/// The base names of the incomplete pairs among the first `i`: reported and
/// skipped, never emitted.
pub open spec fn spec_incomplete_bases(pairs: Seq<PairV>, i: int) -> Seq<Seq<char>>
    decreases i,
{
    if i <= 0 {
        Seq::empty()
    } else if !pair_is_complete(pairs[i - 1]) {
        spec_incomplete_bases(pairs, i - 1).push(pairs[i - 1].base_name)
    } else {
        spec_incomplete_bases(pairs, i - 1)
    }
}

/// The base names of the complete two-sided pairs among the first `i`.
pub open spec fn spec_paired_bases(pairs: Seq<PairV>, i: int) -> Seq<Seq<char>>
    decreases i,
{
    if i <= 0 {
        Seq::empty()
    } else if pairs[i - 1].request is Some && pairs[i - 1].response is Some {
        spec_paired_bases(pairs, i - 1).push(pairs[i - 1].base_name)
    } else {
        spec_paired_bases(pairs, i - 1)
    }
}

/// The base names of the complete standalone messages among the first `i`.
pub open spec fn spec_standalone_bases(pairs: Seq<PairV>, i: int) -> Seq<Seq<char>>
    decreases i,
{
    if i <= 0 {
        Seq::empty()
    } else if pairs[i - 1].request is None && pair_is_complete(pairs[i - 1]) {
        spec_standalone_bases(pairs, i - 1).push(pairs[i - 1].base_name)
    } else {
        spec_standalone_bases(pairs, i - 1)
    }
}

/// Everything one run produces, ready to be written out: the per-pair files,
/// the optional aggregation file, and the complete and incomplete base names
/// for reporting.
pub struct GeneratedOutput {
    pub files: Vec<(String, String)>,
    pub mod_file: Option<String>,
    pub generated: Vec<String>,
    pub incomplete: Vec<String>,
}

impl SchemaProcessor {
    /// Produces the output of the whole run: one file per complete pair in
    /// first-encounter order, the aggregation file when configured, and the
    /// lists of emitted and skipped base names.
    #[verifier::loop_isolation(false)]
    pub fn generate_all(&self) -> (r: GeneratedOutput)
        ensures
            r.files.deep_view() == spec_output_files(self@.pairs, self@.pairs.len() as int),
            r.generated.deep_view() == spec_generated_bases(self@.pairs, self@.pairs.len() as int),
            r.incomplete.deep_view() == spec_incomplete_bases(
                self@.pairs,
                self@.pairs.len() as int,
            ),
            match r.mod_file {
                Some(m) => self@.config.generate_mod_file && m@ == spec_mod_file(
                    spec_paired_bases(self@.pairs, self@.pairs.len() as int),
                    spec_standalone_bases(self@.pairs, self@.pairs.len() as int),
                ),
                None => !self@.config.generate_mod_file,
            },
    {
        let ghost pv = self@.pairs;
        let mut files: Vec<(String, String)> = Vec::new();
        let mut generated: Vec<String> = Vec::new();
        let mut incomplete: Vec<String> = Vec::new();
        let mut paired: Vec<String> = Vec::new();
        let mut standalone: Vec<String> = Vec::new();
        let mut i: usize = 0;
        while i < self.pairs.len()
            invariant
                i <= self.pairs@.len(),
                files.deep_view() == spec_output_files(pv, i as int),
                generated.deep_view() == spec_generated_bases(pv, i as int),
                incomplete.deep_view() == spec_incomplete_bases(pv, i as int),
                paired.deep_view() == spec_paired_bases(pv, i as int),
                standalone.deep_view() == spec_standalone_bases(pv, i as int),
            decreases self.pairs@.len() - i,
        {
            let pair = &self.pairs[i];
            if pair.is_complete() {
                let (filename, code) = generate_paired_file(pair);
                files.push((filename, code));
                generated.push(pair.base_name.clone());
                proof {
                    assert(files.deep_view() =~~= spec_output_files(pv, i + 1));
                }
            } else {
                incomplete.push(pair.base_name.clone());
            }
            if pair.request.is_some() && pair.response.is_some() {
                paired.push(pair.base_name.clone());
            } else if pair.request.is_none() && pair.is_complete() {
                standalone.push(pair.base_name.clone());
            }
            i = i + 1;
        }
        let mod_file = if self.config.generate_mod_file {
            Some(generate_mod_file(&paired, &standalone))
        } else {
            None
        };
        GeneratedOutput { files, mod_file, generated, incomplete }
    }
}

} // verus!
