//! What a prepared bundle computes for its sessions: the bundle directories
//! that mentions resolve against, and the system prompt assembled from the
//! instruction, the context files and the context that mentions brought in.
use vstd::prelude::*;
use vstd::string::StrSliceExecFns;
use indexmap::IndexMap;
use crate::text::{concat, copy_string, push_str, str_eq, str_to_string};
use crate::ordered::{
    text_map_entries, text_map_get, text_map_insert, text_map_lookup, text_map_new, text_map_put,
    text_map_to_vec,
};
use crate::bundle::{Bundle, BundleModel};

verus! {

broadcast use vstd::std_specs::vec::group_vec_axioms;

/// The keys of map entries, in order.
pub open spec fn keys_of(es: Seq<(Seq<char>, Seq<char>)>) -> Seq<Seq<char>> {
    Seq::new(es.len(), |i: int| es[i].0)
}

/// The namespaces a bundle resolves mentions for: those of the directories
/// recorded for included bundles, then its own name when it has one that is
/// not among them.
pub open spec fn resolver_namespaces(b: BundleModel) -> Seq<Seq<char>> {
    let ks = keys_of(b.source_base_paths);
    if b.name.len() > 0 && !ks.contains(b.name) {
        ks.push(b.name)
    } else {
        ks
    }
}

/// The directory of each namespace, added in order: the one recorded for
/// it, or else the bundle's base path; empty namespaces and namespaces with
/// no directory are left out.
pub open spec fn resolver_entries(b: BundleModel, nss: Seq<Seq<char>>) -> Seq<(Seq<char>, Seq<char>)>
    decreases nss.len(),
{
    if nss.len() == 0 {
        Seq::empty()
    } else {
        let acc = resolver_entries(b, nss.drop_last());
        let ns = nss.last();
        if ns.len() == 0 {
            acc
        } else {
            match text_map_get(b.source_base_paths, ns) {
                Some(p) => text_map_insert(acc, ns, p),
                None => match b.base_path {
                    Some(p) => text_map_insert(acc, ns, p),
                    None => acc,
                },
            }
        }
    }
}

/// Whether `x` is among the keys of the entries `es`.
fn keys_contain(es: &Vec<(String, String)>, x: &str) -> (r: bool)
    ensures
        r == Seq::new(es@.len(), |i: int| es@[i].0@).contains(x@),
{
    let ghost ks = Seq::new(es@.len(), |i: int| es@[i].0@);
    let mut i: usize = 0;
    while i < es.len()
        invariant
            i <= es@.len(),
            ks == Seq::new(es@.len(), |k: int| es@[k].0@),
            forall|j: int| 0 <= j < i ==> ks[j] != x@,
        decreases es@.len() - i,
    {
        if str_eq(es[i].0.as_str(), x) {
            assert(ks[i as int] == x@);
            return true;
        }
        i += 1;
    }
    false
}

/// The directory of each namespace a bundle resolves mentions for (see
/// `resolver_entries`), in the order the namespaces come.
pub fn build_bundles_for_resolver(bundle: &Bundle) -> (r: IndexMap<String, String>)
    ensures
        text_map_entries(r) == resolver_entries(bundle@, resolver_namespaces(bundle@)),
{
    let es = text_map_to_vec(&bundle.source_base_paths);
    let ghost sbp = bundle@.source_base_paths;
    assert(Seq::new(es@.len(), |i: int| es@[i].0@) =~= keys_of(sbp));
    let mut nss: Vec<String> = Vec::new();
    let mut i: usize = 0;
    while i < es.len()
        invariant
            i <= es@.len(),
            es@.len() == sbp.len(),
            forall|k: int| 0 <= k < es@.len() ==> (#[trigger] es@[k]).0@ == sbp[k].0,
            nss@.len() == i,
            forall|k: int| 0 <= k < i ==> (#[trigger] nss@[k])@ == sbp[k].0,
        decreases es@.len() - i,
    {
        nss.push(copy_string(&es[i].0));
        i += 1;
    }
    let name_len = bundle.name.as_str().unicode_len();
    if name_len > 0 && !keys_contain(&es, bundle.name.as_str()) {
        nss.push(copy_string(&bundle.name));
    }
    let ghost target = resolver_namespaces(bundle@);
    assert(bundle.name@.len() == name_len);
    assert(Seq::new(nss@.len(), |k: int| nss@[k]@) =~= target);
    let mut out = text_map_new();
    let mut j: usize = 0;
    assert(target.take(0) =~= Seq::<Seq<char>>::empty());
    while j < nss.len()
        invariant
            j <= nss@.len(),
            target == resolver_namespaces(bundle@),
            Seq::new(nss@.len(), |k: int| nss@[k]@) == target,
            text_map_entries(out) == resolver_entries(bundle@, target.take(j as int)),
        decreases nss@.len() - j,
    {
        proof {
            let t = target.take(j + 1);
            assert(t.drop_last() =~= target.take(j as int));
            assert(t.last() == target[j as int]);
            assert(target[j as int] == nss@[j as int]@);
        }
        let ns = &nss[j];
        if ns.as_str().unicode_len() > 0 {
            match text_map_lookup(&bundle.source_base_paths, ns.as_str()) {
                Some(p) => {
                    text_map_put(&mut out, copy_string(ns), copy_string(p));
                },
                None => match &bundle.base_path {
                    Some(p) => {
                        text_map_put(&mut out, copy_string(ns), copy_string(p));
                    },
                    None => {},
                },
            }
        } else {
            assert(nss@[j as int]@.len() == 0);
        }
        j += 1;
    }
    assert(target.take(nss@.len() as int) =~= target);
    out
}

/// The directory mentions without a namespace resolve against: the
/// session's working directory, else the bundle's base path, else the
/// process's working directory (`cwd`), else `.`.
pub open spec fn prompt_base_path_model(
    session_cwd: Option<Seq<char>>,
    bundle_base: Option<Seq<char>>,
    cwd: Option<Seq<char>>,
) -> Seq<char> {
    match session_cwd {
        Some(s) => s,
        None => match bundle_base {
            Some(b) => b,
            None => match cwd {
                Some(c) => c,
                None => "."@,
            },
        },
    }
}

/// The text of an optional string.
pub open spec fn opt_str_view(s: Option<&str>) -> Option<Seq<char>> {
    match s {
        Some(t) => Some(t@),
        None => None,
    }
}

/// The directory mentions without a namespace resolve against (see
/// `prompt_base_path_model`).
pub fn prompt_base_path(session_cwd: Option<&str>, bundle: &Bundle, cwd: Option<&str>) -> (r: String)
    ensures
        r@ == prompt_base_path_model(opt_str_view(session_cwd), bundle@.base_path, opt_str_view(cwd)),
{
    match session_cwd {
        Some(s) => str_to_string(s),
        None => match &bundle.base_path {
            Some(b) => copy_string(b),
            None => match cwd {
                Some(c) => str_to_string(c),
                None => str_to_string("."),
            },
        },
    }
}

/// Texts joined with `sep`.
pub open spec fn join_with(ps: Seq<Seq<char>>, sep: Seq<char>) -> Seq<char>
    decreases ps.len(),
{
    if ps.len() == 0 {
        Seq::empty()
    } else if ps.len() == 1 {
        ps[0]
    } else {
        join_with(ps.drop_last(), sep) + sep + ps.last()
    }
}

/// The parts of the instruction: the bundle's own instruction, then a
/// `# Context: <name>` section for each context file that could be read.
pub open spec fn instruction_parts(instruction: Option<Seq<char>>, contexts: Seq<(Seq<char>, Option<Seq<char>>)>) -> Seq<Seq<char>>
    decreases contexts.len(),
{
    if contexts.len() == 0 {
        match instruction {
            Some(i) => seq![i],
            None => Seq::empty(),
        }
    } else {
        let acc = instruction_parts(instruction, contexts.drop_last());
        match contexts.last().1 {
            Some(c) => acc.push("# Context: "@ + contexts.last().0 + "\n\n"@ + c),
            None => acc,
        }
    }
}

/// The model of context files as read: name, and content where it could be
/// read.
pub open spec fn contexts_view(cs: Seq<(String, Option<String>)>) -> Seq<(Seq<char>, Option<Seq<char>>)> {
    Seq::new(cs.len(), |i: int| (cs[i].0@, match cs[i].1 {
        Some(c) => Some(c@),
        None => None,
    }))
}

/// The combined instruction: the bundle's instruction and each readable
/// context file (`contexts`: name, and content where it could be read),
/// joined by `---` rules.
pub fn combined_instruction(instruction: Option<&str>, contexts: &Vec<(String, Option<String>)>) -> (r: String)
    ensures
        r@ == join_with(instruction_parts(opt_str_view(instruction), contexts_view(contexts@)), "\n\n---\n\n"@),
{
    let ghost cv = contexts_view(contexts@);
    let ghost inst = opt_str_view(instruction);
    let mut out = String::new();
    let mut any = false;
    match instruction {
        Some(i) => {
            push_str(&mut out, i);
            any = true;
            assert(instruction_parts(inst, cv.take(0)) =~= seq![i@]);
        },
        None => {
            assert(instruction_parts(inst, cv.take(0)) =~= Seq::<Seq<char>>::empty());
        },
    }
    proof {
        assert(cv.take(0) =~= Seq::<(Seq<char>, Option<Seq<char>>)>::empty());
        assert(out@ =~= join_with(instruction_parts(inst, cv.take(0)), "\n\n---\n\n"@));
    }
    let mut i: usize = 0;
    while i < contexts.len()
        invariant
            i <= contexts@.len(),
            cv == contexts_view(contexts@),
            any == (instruction_parts(inst, cv.take(i as int)).len() > 0),
            out@ == join_with(instruction_parts(inst, cv.take(i as int)), "\n\n---\n\n"@),
        decreases contexts@.len() - i,
    {
        proof {
            let t = cv.take(i + 1);
            assert(t.drop_last() =~= cv.take(i as int));
            assert(t.last() == cv[i as int]);
        }
        match &contexts[i].1 {
            Some(c) => {
                let ghost before = instruction_parts(inst, cv.take(i as int));
                if any {
                    push_str(&mut out, "\n\n---\n\n");
                }
                push_str(&mut out, "# Context: ");
                push_str(&mut out, contexts[i].0.as_str());
                push_str(&mut out, "\n\n");
                push_str(&mut out, c.as_str());
                proof {
                    let after = before.push("# Context: "@ + cv[i as int].0 + "\n\n"@ + c@);
                    assert(after.drop_last() =~= before);
                    if !any {
                        assert(before.len() == 0);
                    }
                    assert(out@ =~= join_with(after, "\n\n---\n\n"@));
                }
                any = true;
            },
            None => {},
        }
        i += 1;
    }
    assert(cv.take(contexts@.len() as int) =~= cv);
    out
}

/// The system prompt: the context block that mentions brought in, a `---`
/// rule, and the combined instruction; just the instruction when the block
/// is empty.
pub open spec fn system_prompt_model(context_block: Seq<char>, instruction: Seq<char>) -> Seq<char> {
    if context_block.len() > 0 {
        context_block + "\n\n---\n\n"@ + instruction
    } else {
        instruction
    }
}

/// The system prompt from the context block and the combined instruction
/// (see `system_prompt_model`).
pub fn system_prompt(context_block: &str, instruction: &str) -> (r: String)
    ensures
        r@ == system_prompt_model(context_block@, instruction@),
{
    let block = str_to_string(context_block);
    if block.as_str().unicode_len() > 0 {
        let mut out = concat(context_block, "\n\n---\n\n");
        push_str(&mut out, instruction);
        out
    } else {
        str_to_string(instruction)
    }
}

} // verus!
