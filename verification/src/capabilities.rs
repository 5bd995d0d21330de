//! Session capabilities held as JSON: the working directory.
use vstd::prelude::*;
use crate::json::{Json, JsonValue, json_get, json_str, json_members, lemma_object_view, json_get_exec, members_insert};
use crate::ordered::{text_map_get, text_map_insert};
use crate::text::{copy_string, str_to_string};

verus! {

/// The capability key of the working directory.
pub const WORKING_DIR_CAPABILITY: &'static str = "working_dir";

/// The working directory a capabilities value records.
pub open spec fn working_dir_model(caps: Json) -> Option<Seq<char>> {
    match json_get(caps, "working_dir"@) {
        Some(v) => json_str(v),
        None => None,
    }
}

/// Capabilities after recording `dir`: a null value becomes an object first;
/// an object then holds `dir` under `working_dir`; anything else is unchanged.
pub open spec fn set_working_dir_model(caps: Json, dir: Seq<char>) -> Json {
    let c = if caps is Null {
        Json::Obj(Seq::empty())
    } else {
        caps
    };
    match c {
        Json::Obj(m) => Json::Obj(text_map_insert(m, "working_dir"@, Json::Str(dir))),
        _ => c,
    }
}

/// The working directory recorded in the capabilities, if it is a string.
pub fn get_working_dir(capabilities: &JsonValue) -> (r: Option<String>)
    ensures
        match r {
            Some(s) => working_dir_model(capabilities@) == Some(s@),
            None => working_dir_model(capabilities@) is None,
        },
{
    proof {
        reveal_strlit("working_dir");
    }
    match json_get_exec(capabilities, WORKING_DIR_CAPABILITY) {
        Some(JsonValue::String(s)) => Some(copy_string(s)),
        _ => None,
    }
}

/// Records `dir` as the working directory (see `set_working_dir_model`).
pub fn set_working_dir(capabilities: &mut JsonValue, dir: &str)
    ensures
        final(capabilities)@ == set_working_dir_model(old(capabilities)@, dir@),
{
    proof {
        reveal_strlit("working_dir");
    }
    if let JsonValue::Null = capabilities {
        let empty: Vec<(String, JsonValue)> = Vec::new();
        proof {
            lemma_object_view(empty);
            assert(json_members(empty@) =~= Seq::<(Seq<char>, Json)>::empty());
        }
        *capabilities = JsonValue::Object(empty);
    }
    if let JsonValue::Object(m) = capabilities {
        proof {
            lemma_object_view(*m);
        }
        members_insert(m, str_to_string(WORKING_DIR_CAPABILITY), JsonValue::String(str_to_string(dir)));
        proof {
            lemma_object_view(*m);
        }
    }
}

/// After recording a working directory in null or object capabilities,
/// reading it gives that directory back.
pub proof fn law_get_after_set_working_dir(caps: Json, dir: Seq<char>)
    requires
        caps is Null || caps is Obj,
    ensures
        working_dir_model(set_working_dir_model(caps, dir)) == Some(dir),
{
    let m = match caps {
        Json::Obj(m) => m,
        _ => Seq::empty(),
    };
    crate::ordered::lemma_text_get_after_insert(m, "working_dir"@, Json::Str(dir), "working_dir"@);
}

} // verus!
