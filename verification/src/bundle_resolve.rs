//! Finding a bundle's resources: context files by name, references into
//! other bundles, agent files, and the metadata agent files add.
use vstd::prelude::*;
use indexmap::IndexMap;
use crate::value::{Yaml, YamlValue};
use crate::ordered::{text_map_entries, text_map_get, text_map_insert, text_map_lookup, text_map_new, text_map_put, text_map_to_vec};
use crate::text::{chars_split_once, chars_to_string, copy_string, has_char, split_once_char, str_chars, str_eq, str_has_char};
use crate::paths::{construct_context_path, context_path_model};
use crate::bundle::{Bundle, BundleModel};
use crate::disk::path_exists;

verus! {

broadcast use vstd::std_specs::vec::group_vec_axioms;

/// Where a namespaced reference `ns:part` resolves: under the base path
/// recorded for `ns`, else under the bundle's own base path when `ns` is the
/// bundle's own name; nowhere otherwise.
pub open spec fn reference_target(b: BundleModel, reference: Seq<char>) -> Option<Seq<char>> {
    match split_once_char(reference, ':') {
        Some((ns, part)) => match text_map_get(b.source_base_paths, ns) {
            Some(base) => Some(context_path_model(base, part)),
            None => match b.base_path {
                Some(bp) => if ns == b.name {
                    Some(context_path_model(bp, part))
                } else {
                    None
                },
                None => None,
            },
        },
        None => None,
    }
}

/// The pending references folded one by one: a resolvable one goes into the
/// context under its name, any other stays pending.
pub open spec fn pending_fold(b: BundleModel, entries: Seq<(Seq<char>, Seq<char>)>) -> (
    Seq<(Seq<char>, Seq<char>)>,
    Seq<(Seq<char>, Seq<char>)>,
)
    decreases entries.len(),
{
    if entries.len() == 0 {
        (b.context, Seq::empty())
    } else {
        let (ctx, pend) = pending_fold(b, entries.drop_last());
        let (name, reference) = entries.last();
        match reference_target(b, reference) {
            Some(path) => (text_map_insert(ctx, name, path), pend),
            None => (ctx, text_map_insert(pend, name, reference)),
        }
    }
}

/// The bundle after its pending references are resolved where they can be.
pub open spec fn resolve_pending_model(b: BundleModel) -> BundleModel {
    if b.pending_context.len() == 0 {
        b
    } else {
        let (ctx, pend) = pending_fold(b, b.pending_context);
        BundleModel { context: ctx, pending_context: pend, ..b }
    }
}

fn reference_target_exec(b: &Bundle, reference: &String) -> (r: Option<String>)
    ensures
        opt_view(r) == reference_target(b@, reference@),
{
    let v = str_chars(reference.as_str());
    match chars_split_once(&v, ':') {
        Some((ns_chars, part_chars)) => {
            let ns = chars_to_string(&ns_chars);
            let part = chars_to_string(&part_chars);
            match text_map_lookup(&b.source_base_paths, ns.as_str()) {
                Some(base) => Some(construct_context_path(base.as_str(), part.as_str())),
                None => match &b.base_path {
                    Some(bp) => {
                        if str_eq(ns.as_str(), b.name.as_str()) {
                            Some(construct_context_path(bp.as_str(), part.as_str()))
                        } else {
                            None
                        }
                    },
                    None => None,
                },
            }
        },
        None => None,
    }
}

/// The model of an optional text.
pub open spec fn opt_view(o: Option<String>) -> Option<Seq<char>> {
    match o {
        Some(s) => Some(s@),
        None => None,
    }
}

impl Bundle {
    /// Moves every pending reference that can now be resolved (see
    /// `reference_target`) into the context; the others stay pending.
    pub fn resolve_pending_context(&mut self)
        ensures
            final(self)@ == resolve_pending_model(old(self)@),
    {
        let es = text_map_to_vec(&self.pending_context);
        if es.len() == 0 {
            return;
        }
        let ghost b0 = self@;
        let ghost ps = b0.pending_context;
        let mut pending = text_map_new();
        std::mem::swap(&mut pending, &mut self.pending_context);
        let mut i: usize = 0;
        assert(ps.take(0) =~= Seq::<(Seq<char>, Seq<char>)>::empty());
        while i < es.len()
            invariant
                i <= es@.len(),
                es@.len() == ps.len(),
                forall|j: int| 0 <= j < es@.len() ==> (#[trigger] es@[j]).0@ == ps[j].0 && es@[j].1@ == ps[j].1,
                (text_map_entries(self.context), text_map_entries(self.pending_context))
                    == pending_fold(b0, ps.take(i as int)),
                self@.name == b0.name,
                self@.base_path == b0.base_path,
                self@.source_base_paths == b0.source_base_paths,
                self@ == (BundleModel { context: self@.context, pending_context: self@.pending_context, ..b0 }),
            decreases es@.len() - i,
        {
            proof {
                let t = ps.take(i + 1);
                assert(t.drop_last() =~= ps.take(i as int));
                assert(t.last() == ps[i as int]);
            }
            let name = &es[i].0;
            let reference = &es[i].1;
            match reference_target_exec(self, reference) {
                Some(path) => {
                    text_map_put(&mut self.context, copy_string(name), path);
                },
                None => {
                    text_map_put(&mut self.pending_context, copy_string(name), copy_string(reference));
                },
            }
            i += 1;
        }
        assert(ps.take(es@.len() as int) =~= ps);
    }

    /// The path of context resource `name`: its registered path, else (when
    /// the bundle has a base path) the path built under the base path if a file
    /// is there. Whether that file exists depends on the disk: the result is
    /// then either that path or nothing.
    pub fn resolve_context_path(&self, name: &str) -> (r: Option<String>)
        ensures
            text_map_get(self@.context, name@) matches Some(p) ==> opt_view(r) == Some(p),
            text_map_get(self@.context, name@) is None ==> match self@.base_path {
                Some(bp) => opt_view(r) is None || opt_view(r) == Some(context_path_model(bp, name@)),
                None => r is None,
            },
    {
        if let Some(path) = text_map_lookup(&self.context, name) {
            return Some(copy_string(path));
        }
        if let Some(bp) = &self.base_path {
            let candidate = construct_context_path(bp.as_str(), name);
            if path_exists(candidate.as_str()) {
                return Some(candidate);
            }
        }
        None
    }

    /// The system instruction, if the bundle has one.
    pub fn get_system_instruction(&self) -> (r: Option<&String>)
        ensures
            match r {
                Some(s) => self@.instruction == Some(s@),
                None => self@.instruction is None,
            },
    {
        self.instruction.as_ref()
    }
}

proof fn lemma_pending_unresolvable(b: BundleModel, entries: Seq<(Seq<char>, Seq<char>)>)
    ensures
        forall|i: int|
            0 <= i < pending_fold(b, entries).1.len() ==> reference_target(
                b,
                (#[trigger] pending_fold(b, entries).1[i]).1,
            ) is None,
    decreases entries.len(),
{
    if entries.len() > 0 {
        lemma_pending_unresolvable(b, entries.drop_last());
        let (ctx, pend) = pending_fold(b, entries.drop_last());
        let (name, reference) = entries.last();
        if reference_target(b, reference) is None {
            let np = text_map_insert(pend, name, reference);
            assert forall|i: int| 0 <= i < np.len() implies reference_target(b, (#[trigger] np[i]).1) is None by {
                if i < pend.len() && np[i] != pend[i] {
                    assert(np[i] == (name, reference));
                }
                if i == pend.len() {
                    assert(np[i] == (name, reference));
                }
            }
        }
    }
}

/// After pending references are resolved, every reference still pending is
/// one that cannot be resolved.
pub proof fn law_left_pending_cannot_resolve(b: BundleModel, i: int)
    requires
        0 <= i < resolve_pending_model(b).pending_context.len(),
    ensures
        reference_target(
            resolve_pending_model(b),
            resolve_pending_model(b).pending_context[i].1,
        ) is None,
{
    lemma_pending_unresolvable(b, b.pending_context);
}

} // verus!
