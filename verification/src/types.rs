//! The intermediate representation: one resolved field, one resolved struct,
//! and the request/response pair a struct belongs to.

use vstd::prelude::*;
use crate::dec::DecNum;
use crate::strutil::{spec_add_unique, add_unique, str_eq};

verus! {

/// The abstract value of a [`FieldInfo`].
pub ghost struct FieldV {
    pub name: Seq<char>,
    pub original_name: Seq<char>,
    pub rust_type: Seq<char>,
    pub is_optional: bool,
    pub needs_validation: bool,
    pub description: Option<Seq<char>>,
    pub min_length: Option<u64>,
    pub max_length: Option<u64>,
    pub min_value: Option<DecNum>,
    pub max_value: Option<DecNum>,
    pub min_items: Option<u64>,
    pub max_items: Option<u64>,
}

/// One resolved struct field: the Rust identifier, the original JSON key,
/// the resolved type, and the constraints carried through from the schema.
#[derive(Debug, Clone)]
pub struct FieldInfo {
    pub name: String,
    pub original_name: String,
    pub rust_type: String,
    pub is_optional: bool,
    pub needs_validation: bool,
    pub description: Option<String>,
    pub min_length: Option<u64>,
    pub max_length: Option<u64>,
    pub min_value: Option<DecNum>,
    pub max_value: Option<DecNum>,
    pub min_items: Option<u64>,
    pub max_items: Option<u64>,
}

impl View for FieldInfo {
    type V = FieldV;

    open spec fn view(&self) -> FieldV {
        FieldV {
            name: self.name@,
            original_name: self.original_name@,
            rust_type: self.rust_type@,
            is_optional: self.is_optional,
            needs_validation: self.needs_validation,
            description: match self.description {
                Some(d) => Some(d@),
                None => None,
            },
            min_length: self.min_length,
            max_length: self.max_length,
            min_value: self.min_value,
            max_value: self.max_value,
            min_items: self.min_items,
            max_items: self.max_items,
        }
    }
}

impl DeepView for FieldInfo {
    type V = FieldV;

    open spec fn deep_view(&self) -> FieldV {
        self.view()
    }
}

/// The abstract value of a [`StructInfo`].
pub ghost struct StructV {
    pub name: Seq<char>,
    pub fields: Seq<FieldV>,
    pub imports: Seq<Seq<char>>,
}

/// One resolved message half: its name, its fields in declaration order, and
/// the insertion-ordered set of imports it needs.
#[derive(Debug, Clone)]
pub struct StructInfo {
    pub name: String,
    pub fields: Vec<FieldInfo>,
    pub imports: Vec<String>,
}

impl View for StructInfo {
    type V = StructV;

    open spec fn view(&self) -> StructV {
        StructV {
            name: self.name@,
            fields: self.fields.deep_view(),
            imports: self.imports.deep_view(),
        }
    }
}

impl DeepView for StructInfo {
    type V = StructV;

    open spec fn deep_view(&self) -> StructV {
        self.view()
    }
}

/// The abstract value of a [`MessagePair`].
pub ghost struct PairV {
    pub base_name: Seq<char>,
    pub request: Option<StructV>,
    pub response: Option<StructV>,
    pub combined_imports: Seq<Seq<char>>,
}

/// Up to one request and one response struct under a shared base name, or a
/// single standalone struct (held in the response slot, recognisable by its
/// name equalling the base name).
#[derive(Debug, Clone)]
pub struct MessagePair {
    pub base_name: String,
    pub request: Option<StructInfo>,
    pub response: Option<StructInfo>,
    pub combined_imports: Vec<String>,
}

impl View for MessagePair {
    type V = PairV;

    open spec fn view(&self) -> PairV {
        PairV {
            base_name: self.base_name@,
            request: self.request.deep_view(),
            response: self.response.deep_view(),
            combined_imports: self.combined_imports.deep_view(),
        }
    }
}

impl DeepView for MessagePair {
    type V = PairV;

    open spec fn deep_view(&self) -> PairV {
        self.view()
    }
}

/// Adds every string of `b`, in order, to the insertion-ordered set `a`.
pub open spec fn spec_merge_imports(a: Seq<Seq<char>>, b: Seq<Seq<char>>) -> Seq<Seq<char>>
    decreases b.len(),
{
    if b.len() == 0 {
        a
    } else {
        spec_add_unique(spec_merge_imports(a, b.drop_last()), b.last())
    }
}

/// The pairing policy is satisfied: both halves are present, or the one
/// struct of a standalone message is.
pub open spec fn pair_is_complete(p: PairV) -> bool {
    (p.request is Some && p.response is Some) || (p.response is Some && p.response.unwrap().name
        == p.base_name)
}

impl MessagePair {
    /// An empty pair for one base name.
    pub fn new(base_name: String) -> (r: MessagePair)
        ensures
            r@.base_name == base_name@,
            r@.request is None,
            r@.response is None,
            r@.combined_imports == Seq::<Seq<char>>::empty(),
    {
        let r = MessagePair { base_name, request: None, response: None, combined_imports: Vec::new() };
        proof {
            assert(r.combined_imports.deep_view() =~= Seq::<Seq<char>>::empty());
        }
        r
    }

    /// Fills the request slot (last write wins) and merges the struct's
    /// imports into the combined set.
    pub fn add_request(&mut self, struct_info: StructInfo)
        ensures
            final(self)@.base_name == old(self)@.base_name,
            final(self)@.request == Some(struct_info@),
            final(self)@.response == old(self)@.response,
            final(self)@.combined_imports == spec_merge_imports(
                old(self)@.combined_imports,
                struct_info@.imports,
            ),
    {
        merge_into(&mut self.combined_imports, &struct_info.imports);
        self.request = Some(struct_info);
    }

    /// Fills the response slot (last write wins) and merges the struct's
    /// imports into the combined set. A standalone message is also held here.
    pub fn add_response(&mut self, struct_info: StructInfo)
        ensures
            final(self)@.base_name == old(self)@.base_name,
            final(self)@.request == old(self)@.request,
            final(self)@.response == Some(struct_info@),
            final(self)@.combined_imports == spec_merge_imports(
                old(self)@.combined_imports,
                struct_info@.imports,
            ),
    {
        merge_into(&mut self.combined_imports, &struct_info.imports);
        self.response = Some(struct_info);
    }

    /// Whether this pair may be emitted.
    pub fn is_complete(&self) -> (r: bool)
        ensures
            r == pair_is_complete(self@),
    {
        if self.request.is_some() && self.response.is_some() {
            true
        } else {
            match &self.response {
                Some(resp) => str_eq(resp.name.as_str(), self.base_name.as_str()),
                None => false,
            }
        }
    }
}

/// Adds every string of `src`, in order, to the insertion-ordered set `dst`.
pub fn merge_into(dst: &mut Vec<String>, src: &Vec<String>)
    ensures
        final(dst).deep_view() == spec_merge_imports(old(dst).deep_view(), src.deep_view()),
{
    let mut i: usize = 0;
    while i < src.len()
        invariant
            i <= src.len(),
            dst.deep_view() == spec_merge_imports(
                old(dst).deep_view(),
                src.deep_view().take(i as int),
            ),
        decreases src.len() - i,
    {
        add_unique(dst, src[i].clone());
        proof {
            assert(src.deep_view().take(i + 1).drop_last() =~= src.deep_view().take(i as int));
            assert(src.deep_view().take(i + 1).last() == src.deep_view()[i as int]);
        }
        i = i + 1;
    }
    proof {
        assert(src.deep_view().take(src.deep_view().len() as int) =~= src.deep_view());
    }
}

} // verus!
