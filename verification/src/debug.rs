//! The debugging text of a YAML value, as `serde_yaml_ng` shows one with
//! `{:?}`; error messages quote offending values with it.
use vstd::prelude::*;
use crate::value::{Yaml, YamlValue, nobang, lemma_list_view, lemma_dict_view, seq_view, entries_view};
use crate::text::{str_chars, push_str, concat};

verus! {

broadcast use vstd::std_specs::vec::group_vec_axioms;

/// What `format!("{:?}", s)` gives for a string: it in double quotes, with
/// the characters Rust's `Debug` escapes escaped.
pub uninterp spec fn str_debug(s: Seq<char>) -> Seq<char>;

/// `<str as Debug>::fmt`, through `format!("{:?}", ..)`; the text is named
/// as a function of the string.
#[verifier::external_body]
fn debug_quote(s: &str) -> (r: String)
    ensures
        r@ == str_debug(s@),
{
    format!("{:?}", s)
}

/// `s` as its debugging text shows it.
pub open spec fn quoted(s: Seq<char>) -> Seq<char> {
    str_debug(s)
}

/// `true` or `false`.
pub open spec fn bool_text(b: bool) -> Seq<char> {
    if b {
        "true"@
    } else {
        "false"@
    }
}

/// The debugging text of a value.
pub open spec fn debug_text(v: Yaml) -> Seq<char>
    decreases v,
{
    match v {
        Yaml::Null => "Null"@,
        Yaml::Bool(b) => "Bool("@ + bool_text(b) + ")"@,
        Yaml::Number(_, t) => "Number("@ + t + ")"@,
        Yaml::Str(s) => "String("@ + quoted(s) + ")"@,
        Yaml::List(xs) => "Sequence ["@ + debug_items(xs) + "]"@,
        Yaml::Dict(m) => "Mapping {"@ + debug_entries(m) + "}"@,
        Yaml::Tagged(t, x) => "TaggedValue { tag: !"@ + nobang(t) + ", value: "@ + debug_text(*x)
            + " }"@,
    }
}

/// The debugging texts of `xs`, joined with `", "`.
pub open spec fn debug_items(xs: Seq<Yaml>) -> Seq<char>
    decreases xs,
{
    if xs.len() == 0 {
        Seq::empty()
    } else {
        proof {
            assert(decreases_to!(xs => xs[xs.len() - 1]));
        }
        if xs.len() == 1 {
            debug_text(xs[xs.len() - 1])
        } else {
            proof {
                assert(decreases_to!(xs => xs.subrange(0, xs.len() - 1)));
            }
            debug_items(xs.subrange(0, xs.len() - 1)) + ", "@ + debug_text(xs[xs.len() - 1])
        }
    }
}

/// The debugging text of mapping entries, `key: value` joined with `", "`.
pub open spec fn debug_entries(m: Seq<(Yaml, Yaml)>) -> Seq<char>
    decreases m,
{
    if m.len() == 0 {
        Seq::empty()
    } else {
        proof {
            assert(decreases_to!(m => m[m.len() - 1]));
            assert(decreases_to!(m[m.len() - 1] => m[m.len() - 1].0));
            assert(decreases_to!(m[m.len() - 1] => m[m.len() - 1].1));
        }
        let k = m[m.len() - 1].0;
        let kt = match k {
            Yaml::Bool(b) => bool_text(b),
            Yaml::Number(_, t) => t,
            Yaml::Str(s) => quoted(s),
            _ => debug_text(k),
        };
        let e = kt + ": "@ + debug_text(m[m.len() - 1].1);
        if m.len() == 1 {
            e
        } else {
            proof {
                assert(decreases_to!(m => m.subrange(0, m.len() - 1)));
            }
            debug_entries(m.subrange(0, m.len() - 1)) + ", "@ + e
        }
    }
}

/// The text of one map key in a debugging mapping.
pub open spec fn key_text(k: Yaml) -> Seq<char> {
    match k {
        Yaml::Bool(b) => bool_text(b),
        Yaml::Number(_, t) => t,
        Yaml::Str(s) => quoted(s),
        _ => debug_text(k),
    }
}

fn quote_text(s: &String) -> (r: String)
    ensures
        r@ == quoted(s@),
{
    debug_quote(s.as_str())
}

fn bool_string(b: bool) -> (r: String)
    ensures
        r@ == bool_text(b),
{
    if b {
        crate::text::str_to_string("true")
    } else {
        crate::text::str_to_string("false")
    }
}

fn key_string(k: &YamlValue) -> (r: String)
    ensures
        r@ == key_text(k@),
    decreases k, 1nat,
{
    match k {
        YamlValue::Bool(b) => bool_string(*b),
        YamlValue::Number(_, t) => t.clone(),
        YamlValue::String(s) => quote_text(s),
        _ => debug_string(k),
    }
}

/// The debugging text of a value (`format!("{:?}", value)`).
#[verifier::loop_isolation(false)]
pub fn debug_string(v: &YamlValue) -> (r: String)
    ensures
        r@ == debug_text(v@),
    decreases v, 0nat,
{
    proof {
        reveal_strlit("Null");
        reveal_strlit("Bool(");
        reveal_strlit(")");
        reveal_strlit("Number(");
        reveal_strlit("String(");
        reveal_strlit("Sequence [");
        reveal_strlit("]");
        reveal_strlit("Mapping {");
        reveal_strlit("}");
        reveal_strlit(", ");
        reveal_strlit(": ");
        reveal_strlit("TaggedValue { tag: !");
        reveal_strlit(", value: ");
        reveal_strlit(" }");
    }
    match v {
        YamlValue::Null => crate::text::str_to_string("Null"),
        YamlValue::Bool(b) => {
            let mut s = crate::text::str_to_string("Bool(");
            let t = bool_string(*b);
            push_str(&mut s, t.as_str());
            push_str(&mut s, ")");
            s
        },
        YamlValue::Number(_, t) => {
            let mut s = crate::text::str_to_string("Number(");
            push_str(&mut s, t.as_str());
            push_str(&mut s, ")");
            s
        },
        YamlValue::String(x) => {
            let mut s = crate::text::str_to_string("String(");
            let q = quote_text(x);
            push_str(&mut s, q.as_str());
            push_str(&mut s, ")");
            s
        },
        YamlValue::Sequence(xs) => {
            proof {
                lemma_list_view(*xs);
            }
            let ghost items = seq_view(xs@);
            let mut body = String::new();
            let mut i: usize = 0;
            assert(items.take(0) =~= Seq::<Yaml>::empty());
            while i < xs.len()
                invariant
                    i <= xs@.len(),
                    items == seq_view(xs@),
                    body@ == debug_items(items.take(i as int)),
                decreases xs@.len() - i,
            {
                assert(decreases_to!(v => xs@[i as int]));
                let piece = debug_string(&xs[i]);
                if i > 0 {
                    push_str(&mut body, ", ");
                }
                push_str(&mut body, piece.as_str());
                proof {
                    let t = items.take(i + 1);
                    assert(t.subrange(0, t.len() - 1) =~= items.take(i as int));
                    assert(t[t.len() - 1] == items[i as int]);
                }
                i += 1;
            }
            assert(items.take(xs@.len() as int) =~= items);
            let mut s = crate::text::str_to_string("Sequence [");
            push_str(&mut s, body.as_str());
            push_str(&mut s, "]");
            s
        },
        YamlValue::Mapping(m) => {
            proof {
                lemma_dict_view(*m);
            }
            let ghost es = entries_view(m@);
            let mut body = String::new();
            let mut i: usize = 0;
            assert(es.take(0) =~= Seq::<(Yaml, Yaml)>::empty());
            while i < m.len()
                invariant
                    i <= m@.len(),
                    es == entries_view(m@),
                    body@ == debug_entries(es.take(i as int)),
                decreases m@.len() - i,
            {
                assert(decreases_to!(v => m@[i as int].0));
                assert(decreases_to!(v => m@[i as int].1));
                let k = key_string(&m[i].0);
                let val = debug_string(&m[i].1);
                let kv = concat(k.as_str(), ": ");
                let piece = concat(kv.as_str(), val.as_str());
                if i > 0 {
                    push_str(&mut body, ", ");
                }
                push_str(&mut body, piece.as_str());
                proof {
                    let t = es.take(i + 1);
                    assert(t.subrange(0, t.len() - 1) =~= es.take(i as int));
                    assert(t[t.len() - 1] == es[i as int]);
                }
                i += 1;
            }
            assert(es.take(m@.len() as int) =~= es);
            let mut s = crate::text::str_to_string("Mapping {");
            push_str(&mut s, body.as_str());
            push_str(&mut s, "}");
            s
        },
        YamlValue::Tagged(t, x) => {
            let mut s = crate::text::str_to_string("TaggedValue { tag: !");
            let nb = strip_bang(t);
            push_str(&mut s, nb.as_str());
            push_str(&mut s, ", value: ");
            let inner = debug_string(&**x);
            push_str(&mut s, inner.as_str());
            push_str(&mut s, " }");
            s
        },
    }
}

/// A tag without its one leading `!`.
fn strip_bang(t: &String) -> (r: String)
    ensures
        r@ == nobang(t@),
{
    let v = str_chars(t.as_str());
    if v.len() >= 2 && v[0] == '!' {
        let r = crate::text::slice_to_string(&v, 1, v.len());
        assert(r@ =~= t@.skip(1));
        r
    } else {
        t.clone()
    }
}

} // verus!
