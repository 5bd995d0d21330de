//! Checking bundles: required fields and module lists (basic), and what a
//! bundle needs to be mounted (completeness).
use vstd::prelude::*;
use crate::value::{Yaml, YamlValue, is_dict, is_null, dict_entries, map_get, map_get_str, seq_view, value_as_mapping, mapping_get_str, value_is_mapping, value_is_null};
use crate::text::{concat, decimal, decimal_text, push_str, str_to_string, copy_string};
use crate::bundle::{Bundle, BundleModel};
use crate::bundle_dict::{kind_name, value_type_name};
use crate::error::BundleError;

verus! {

broadcast use vstd::std_specs::vec::group_vec_axioms;

/// The result of a validation: whether it passed, with its errors and warnings.
#[derive(Debug, Clone)]
pub struct ValidationResult {
    pub valid: bool,
    pub errors: Vec<String>,
    pub warnings: Vec<String>,
}

/// The texts of a list of strings.
pub open spec fn msgs(xs: Seq<String>) -> Seq<Seq<char>> {
    Seq::new(xs.len(), |i: int| xs[i]@)
}

impl ValidationResult {
    /// The result passes exactly when it records no error.
    pub open spec fn consistent(&self) -> bool {
        self.valid == (self.errors@.len() == 0)
    }

    /// A passing result with nothing recorded.
    pub fn new() -> (r: ValidationResult)
        ensures
            r.valid,
            r.consistent(),
            msgs(r.errors@) == Seq::<Seq<char>>::empty(),
            msgs(r.warnings@) == Seq::<Seq<char>>::empty(),
    {
        let r = ValidationResult { valid: true, errors: Vec::new(), warnings: Vec::new() };
        assert(msgs(r.errors@) =~= Seq::<Seq<char>>::empty());
        assert(msgs(r.warnings@) =~= Seq::<Seq<char>>::empty());
        r
    }

    /// Records an error: the result no longer passes.
    pub fn add_error(&mut self, message: &str)
        ensures
            msgs(final(self).errors@) == msgs(old(self).errors@).push(message@),
            msgs(final(self).warnings@) == msgs(old(self).warnings@),
            !final(self).valid,
            final(self).consistent(),
    {
        let ghost before = msgs(self.errors@);
        self.errors.push(str_to_string(message));
        self.valid = false;
        assert(msgs(self.errors@) =~= before.push(message@));
    }

    /// Records a warning (the result still passes if it did).
    pub fn add_warning(&mut self, message: &str)
        ensures
            msgs(final(self).warnings@) == msgs(old(self).warnings@).push(message@),
            msgs(final(self).errors@) == msgs(old(self).errors@),
            final(self).valid == old(self).valid,
            old(self).consistent() ==> final(self).consistent(),
    {
        let ghost before = msgs(self.warnings@);
        self.warnings.push(str_to_string(message));
        assert(msgs(self.warnings@) =~= before.push(message@));
    }
}

/// The errors for entry `index` of module list `list`: it must be a mapping,
/// have a `module` key, and have a mapping (if any) under `config`.
pub open spec fn entry_errors(list: Seq<char>, index: nat, entry: Yaml) -> Seq<Seq<char>> {
    let head = list + "["@ + decimal(index) + "]: "@;
    if !is_dict(entry) {
        seq![head + "Must be a dict, got "@ + kind_name(entry)]
    } else {
        let m = dict_entries(entry);
        let a = if map_get_str(m, "module"@) is None {
            seq![head + "Missing required 'module' field"@]
        } else {
            Seq::empty()
        };
        let b = match map_get_str(m, "config"@) {
            Some(c) => if !is_dict(c) {
                seq![head + "'config' must be a dict, got "@ + kind_name(c)]
            } else {
                Seq::empty()
            },
            None => Seq::empty(),
        };
        a + b
    }
}

/// The errors of a module list, entry by entry.
pub open spec fn list_errors(list: Seq<char>, entries: Seq<Yaml>) -> Seq<Seq<char>>
    decreases entries.len(),
{
    if entries.len() == 0 {
        Seq::empty()
    } else {
        list_errors(list, entries.drop_last()) + entry_errors(
            list,
            (entries.len() - 1) as nat,
            entries.last(),
        )
    }
}

/// The errors of the basic validation: a name, then well-formed providers,
/// tools and hooks.
pub open spec fn basic_errors(b: BundleModel) -> Seq<Seq<char>> {
    (if b.name.len() == 0 {
        seq!["Bundle must have a name"@]
    } else {
        Seq::empty()
    }) + list_errors("providers"@, b.providers) + list_errors("tools"@, b.tools) + list_errors(
        "hooks"@,
        b.hooks,
    )
}

/// The further errors of the completeness validation: a mapping session
/// with an orchestrator and a context, and at least one provider.
pub open spec fn completeness_errors(b: BundleModel) -> Seq<Seq<char>> {
    (if is_null(b.session) {
        seq!["Bundle is missing required 'session' section"@]
    } else if is_dict(b.session) {
        let m = dict_entries(b.session);
        (if map_get_str(m, "orchestrator"@) is None {
            seq!["Bundle session is missing required 'orchestrator'"@]
        } else {
            Seq::empty()
        }) + (if map_get_str(m, "context"@) is None {
            seq!["Bundle session is missing required 'context'"@]
        } else {
            Seq::empty()
        })
    } else {
        seq!["Bundle 'session' must be a mapping"@]
    }) + (if b.providers.len() == 0 {
        seq!["Bundle must have at least one provider"@]
    } else {
        Seq::empty()
    })
}

/// A result that passes exactly when it has no errors, with these errors and
/// no warnings.
pub open spec fn result_is(r: ValidationResult, errors: Seq<Seq<char>>) -> bool {
    &&& msgs(r.errors@) == errors
    &&& msgs(r.warnings@) == Seq::<Seq<char>>::empty()
    &&& r.valid == (errors.len() == 0)
}

/// Messages joined with `"; "`.
pub open spec fn join_semicolon(ms: Seq<Seq<char>>) -> Seq<char>
    decreases ms.len(),
{
    if ms.len() == 0 {
        Seq::empty()
    } else if ms.len() == 1 {
        ms[0]
    } else {
        join_semicolon(ms.drop_last()) + "; "@ + ms.last()
    }
}

/// The bundle validator.
pub struct BundleValidator;

fn add_error_at(result: &mut ValidationResult, list: &str, index: usize, tail: &str, kind: Option<String>)
    ensures
        msgs(final(result).errors@) == msgs(old(result).errors@).push(
            list@ + "["@ + decimal(index as nat) + "]: "@ + tail@ + match kind {
                Some(k) => k@,
                None => Seq::empty(),
            },
        ),
        msgs(final(result).warnings@) == msgs(old(result).warnings@),
        !final(result).valid,
{
    let mut msg = concat(list, "[");
    let d = decimal_text(index as u64);
    push_str(&mut msg, d.as_str());
    push_str(&mut msg, "]: ");
    push_str(&mut msg, tail);
    if let Some(k) = &kind {
        push_str(&mut msg, k.as_str());
    }
    result.add_error(msg.as_str());
    proof {
        if kind is None {
            assert(msg@ =~= list@ + "["@ + decimal(index as nat) + "]: "@ + tail@ + Seq::<char>::empty());
        }
    }
}

impl Default for ValidationResult {
    /// A passing result with nothing recorded (as `new`).
    fn default() -> (r: ValidationResult)
        ensures
            r.valid,
            msgs(r.errors@) == Seq::<Seq<char>>::empty(),
            msgs(r.warnings@) == Seq::<Seq<char>>::empty(),
    {
        ValidationResult::new()
    }
}

impl BundleValidator {
    /// A validator.
    pub fn new() -> (v: BundleValidator) {
        BundleValidator
    }

    fn validate_module_entry(&self, list: &str, index: usize, entry: &YamlValue, result: &mut ValidationResult)
        ensures
            msgs(final(result).errors@) == msgs(old(result).errors@) + entry_errors(list@, index as nat, entry@),
            msgs(final(result).warnings@) == msgs(old(result).warnings@),
            final(result).valid == (old(result).valid && entry_errors(list@, index as nat, entry@).len() == 0),
    {
        proof {
            reveal_strlit("Must be a dict, got ");
            reveal_strlit("Missing required 'module' field");
            reveal_strlit("'config' must be a dict, got ");
        }
        let ghost before = msgs(result.errors@);
        let m = match value_as_mapping(entry) {
            Some(m) => m,
            None => {
                add_error_at(result, list, index, "Must be a dict, got ", Some(value_type_name(entry)));
                return;
            },
        };
        if mapping_get_str(m, "module").is_none() {
            add_error_at(result, list, index, "Missing required 'module' field", None);
        }
        let ghost mid = msgs(result.errors@);
        if let Some(config) = mapping_get_str(m, "config") {
            if !value_is_mapping(config) {
                add_error_at(result, list, index, "'config' must be a dict, got ", Some(value_type_name(config)));
            }
        }
        proof {
            let es = entry_errors(list@, index as nat, entry@);
            assert(msgs(result.errors@) =~= before + es);
        }
    }

    fn validate_module_list_entries(&self, list: &str, entries: &Vec<YamlValue>, result: &mut ValidationResult)
        ensures
            msgs(final(result).errors@) == msgs(old(result).errors@) + list_errors(list@, seq_view(entries@)),
            msgs(final(result).warnings@) == msgs(old(result).warnings@),
            final(result).valid == (old(result).valid && list_errors(list@, seq_view(entries@)).len() == 0),
    {
        let ghost es = seq_view(entries@);
        let ghost start = msgs(result.errors@);
        let mut i: usize = 0;
        assert(es.take(0) =~= Seq::<Yaml>::empty());
        assert(start + list_errors(list@, es.take(0)) =~= start);
        while i < entries.len()
            invariant
                i <= entries@.len(),
                es == seq_view(entries@),
                msgs(result.errors@) == start + list_errors(list@, es.take(i as int)),
                msgs(result.warnings@) == msgs(old(result).warnings@),
                start == msgs(old(result).errors@),
                result.valid == (old(result).valid && list_errors(list@, es.take(i as int)).len() == 0),
            decreases entries@.len() - i,
        {
            proof {
                let t = es.take(i + 1);
                assert(t.drop_last() =~= es.take(i as int));
                assert(t.last() == es[i as int]);
                assert(t.len() - 1 == i);
            }
            self.validate_module_entry(list, i, &entries[i], result);
            proof {
                let prev = list_errors(list@, es.take(i as int));
                let e = entry_errors(list@, i as nat, es[i as int]);
                assert(start + prev + e =~= start + (prev + e));
            }
            i += 1;
        }
        assert(es.take(entries@.len() as int) =~= es);
    }

    /// The basic validation: a name, and well-formed module lists (see
    /// `basic_errors`).
    pub fn validate(&self, bundle: &Bundle) -> (r: ValidationResult)
        ensures
            result_is(r, basic_errors(bundle@)),
    {
        proof {
            reveal_strlit("Bundle must have a name");
        }
        let mut result = ValidationResult::new();
        if bundle.name.as_str().unicode_len() == 0 {
            result.add_error("Bundle must have a name");
        }
        let ghost e0 = msgs(result.errors@);
        self.validate_module_list_entries("providers", &bundle.providers, &mut result);
        self.validate_module_list_entries("tools", &bundle.tools, &mut result);
        self.validate_module_list_entries("hooks", &bundle.hooks, &mut result);
        proof {
            assert(e0 =~= (if bundle@.name.len() == 0 {
                seq!["Bundle must have a name"@]
            } else {
                Seq::<Seq<char>>::empty()
            }));
            let p = list_errors("providers"@, bundle@.providers);
            let t = list_errors("tools"@, bundle@.tools);
            let h = list_errors("hooks"@, bundle@.hooks);
            assert(msgs(result.errors@) =~= basic_errors(bundle@));
        }
        result
    }

    /// The completeness validation: the basic one, then a session with an
    /// orchestrator and a context, and at least one provider.
    pub fn validate_completeness(&self, bundle: &Bundle) -> (r: ValidationResult)
        ensures
            result_is(r, basic_errors(bundle@) + completeness_errors(bundle@)),
    {
        proof {
            reveal_strlit("Bundle is missing required 'session' section");
            reveal_strlit("Bundle session is missing required 'orchestrator'");
            reveal_strlit("Bundle session is missing required 'context'");
            reveal_strlit("Bundle 'session' must be a mapping");
            reveal_strlit("Bundle must have at least one provider");
        }
        let mut result = self.validate(bundle);
        let ghost e0 = msgs(result.errors@);
        if value_is_null(&bundle.session) {
            result.add_error("Bundle is missing required 'session' section");
        } else if let Some(m) = value_as_mapping(&bundle.session) {
            if mapping_get_str(m, "orchestrator").is_none() {
                result.add_error("Bundle session is missing required 'orchestrator'");
            }
            if mapping_get_str(m, "context").is_none() {
                result.add_error("Bundle session is missing required 'context'");
            }
        } else {
            result.add_error("Bundle 'session' must be a mapping");
        }
        if bundle.providers.len() == 0 {
            result.add_error("Bundle must have at least one provider");
        }
        proof {
            assert(msgs(result.errors@) =~= e0 + completeness_errors(bundle@));
        }
        result
    }

    /// The basic validation, as an error when it fails.
    pub fn validate_or_raise(&self, bundle: &Bundle) -> (r: Result<(), BundleError>)
        ensures
            basic_errors(bundle@).len() == 0 ==> r is Ok,
            basic_errors(bundle@).len() > 0 ==> (r matches Err(BundleError::LoadError { reason }) && reason@
                == "Bundle validation failed: "@ + join_semicolon(basic_errors(bundle@))),
    {
        let result = self.validate(bundle);
        if !result.valid {
            let j = join_messages(&result.errors);
            return Err(BundleError::LoadError { reason: concat("Bundle validation failed: ", j.as_str()) });
        }
        Ok(())
    }

    /// The completeness validation, as an error when it fails.
    pub fn validate_completeness_or_raise(&self, bundle: &Bundle) -> (r: Result<(), BundleError>)
        ensures
            (basic_errors(bundle@) + completeness_errors(bundle@)).len() == 0 ==> r is Ok,
            (basic_errors(bundle@) + completeness_errors(bundle@)).len() > 0 ==> (r matches Err(
                BundleError::LoadError { reason },
            ) && reason@ == "Bundle incomplete for mounting: "@ + join_semicolon(
                basic_errors(bundle@) + completeness_errors(bundle@),
            )),
    {
        let result = self.validate_completeness(bundle);
        if !result.valid {
            let j = join_messages(&result.errors);
            return Err(BundleError::LoadError { reason: concat("Bundle incomplete for mounting: ", j.as_str()) });
        }
        Ok(())
    }
}

/// Messages joined with `"; "`.
pub fn join_messages(xs: &Vec<String>) -> (r: String)
    ensures
        r@ == join_semicolon(msgs(xs@)),
{
    let ghost ms = msgs(xs@);
    let mut out = String::new();
    let mut i: usize = 0;
    assert(ms.take(0) =~= Seq::<Seq<char>>::empty());
    while i < xs.len()
        invariant
            i <= xs@.len(),
            ms == msgs(xs@),
            out@ == join_semicolon(ms.take(i as int)),
        decreases xs@.len() - i,
    {
        proof {
            let t = ms.take(i + 1);
            assert(t.drop_last() =~= ms.take(i as int));
            assert(t.last() == ms[i as int]);
        }
        if i > 0 {
            push_str(&mut out, "; ");
        }
        push_str(&mut out, xs[i].as_str());
        proof {
            if i == 0 {
                assert(out@ =~= ms.take(1)[0]);
            }
        }
        i += 1;
    }
    assert(ms.take(xs@.len() as int) =~= ms);
    out
}

/// The basic validation of a bundle.
pub fn validate_bundle(bundle: &Bundle) -> (r: ValidationResult)
    ensures
        result_is(r, basic_errors(bundle@)),
{
    BundleValidator::new().validate(bundle)
}

/// The basic validation of a bundle, as an error when it fails.
pub fn validate_bundle_or_raise(bundle: &Bundle) -> (r: Result<(), BundleError>)
    ensures
        basic_errors(bundle@).len() == 0 ==> r is Ok,
        basic_errors(bundle@).len() > 0 ==> (r matches Err(BundleError::LoadError { reason }) && reason@
            == "Bundle validation failed: "@ + join_semicolon(basic_errors(bundle@))),
{
    BundleValidator::new().validate_or_raise(bundle)
}

/// The completeness validation of a bundle.
pub fn validate_bundle_completeness(bundle: &Bundle) -> (r: ValidationResult)
    ensures
        result_is(r, basic_errors(bundle@) + completeness_errors(bundle@)),
{
    BundleValidator::new().validate_completeness(bundle)
}

/// The completeness validation of a bundle, as an error when it fails.
pub fn validate_bundle_completeness_or_raise(bundle: &Bundle) -> (r: Result<(), BundleError>)
    ensures
        (basic_errors(bundle@) + completeness_errors(bundle@)).len() == 0 ==> r is Ok,
        (basic_errors(bundle@) + completeness_errors(bundle@)).len() > 0 ==> (r matches Err(
            BundleError::LoadError { reason },
        ) && reason@ == "Bundle incomplete for mounting: "@ + join_semicolon(
            basic_errors(bundle@) + completeness_errors(bundle@),
        )),
{
    BundleValidator::new().validate_completeness_or_raise(bundle)
}

/// Completeness validation refuses what a mountable bundle lacks: a result
/// of it (see `validate_completeness`) does not pass, and names the lack,
/// when the session is missing, is not a mapping, lacks its orchestrator or
/// its context, or when there is no provider.
pub proof fn law_completeness_names_what_is_missing(b: BundleModel, r: ValidationResult)
    requires
        result_is(r, basic_errors(b) + completeness_errors(b)),
    ensures
        is_null(b.session) ==> !r.valid && msgs(r.errors@).contains("Bundle is missing required 'session' section"@),
        is_dict(b.session) && map_get_str(dict_entries(b.session), "orchestrator"@) is None ==> !r.valid && msgs(
            r.errors@,
        ).contains("Bundle session is missing required 'orchestrator'"@),
        is_dict(b.session) && map_get_str(dict_entries(b.session), "context"@) is None ==> !r.valid && msgs(
            r.errors@,
        ).contains("Bundle session is missing required 'context'"@),
        !is_null(b.session) && !is_dict(b.session) ==> !r.valid && msgs(r.errors@).contains(
            "Bundle 'session' must be a mapping"@,
        ),
        b.providers.len() == 0 ==> !r.valid && msgs(r.errors@).contains("Bundle must have at least one provider"@),
{
    let be = basic_errors(b);
    let ce = completeness_errors(b);
    let all = be + ce;
    let first = if is_null(b.session) {
        seq!["Bundle is missing required 'session' section"@]
    } else if is_dict(b.session) {
        let m = dict_entries(b.session);
        (if map_get_str(m, "orchestrator"@) is None {
            seq!["Bundle session is missing required 'orchestrator'"@]
        } else {
            Seq::empty()
        }) + (if map_get_str(m, "context"@) is None {
            seq!["Bundle session is missing required 'context'"@]
        } else {
            Seq::empty()
        })
    } else {
        seq!["Bundle 'session' must be a mapping"@]
    };
    let second = if b.providers.len() == 0 {
        seq!["Bundle must have at least one provider"@]
    } else {
        Seq::<Seq<char>>::empty()
    };
    assert(ce == first + second);
    // Every message of the completeness part is among the errors.
    assert forall|k: int| 0 <= k < ce.len() implies all.contains(#[trigger] ce[k]) by {
        assert(all[be.len() + k] == ce[k]);
    }
    if is_null(b.session) {
        assert(ce[0] == first[0]);
    } else if is_dict(b.session) {
        let m = dict_entries(b.session);
        let a = if map_get_str(m, "orchestrator"@) is None {
            seq!["Bundle session is missing required 'orchestrator'"@]
        } else {
            Seq::<Seq<char>>::empty()
        };
        if map_get_str(m, "orchestrator"@) is None {
            assert(ce[0] == first[0]);
        }
        if map_get_str(m, "context"@) is None {
            assert(first[a.len() as int] == "Bundle session is missing required 'context'"@);
            assert(ce[a.len() as int] == first[a.len() as int]);
        }
    } else {
        assert(ce[0] == first[0]);
    }
    if b.providers.len() == 0 {
        assert(ce[first.len() as int] == second[0]);
    }
}

} // verus!
