//! Update status of a bundle's sources, and checking and updating a source.
use vstd::prelude::*;
use crate::sources::{SourceStatus};
use crate::uri::{ParsedURI, parse_uri, parse_uri_model, is_file_model};
use crate::text::{concat, decimal, decimal_text, digit_char, is_prefix, push_str, str_to_string, copy_string};
use crate::error::BundleError;

verus! {

broadcast use vstd::std_specs::vec::group_vec_axioms;

/// The status of a bundle and each of its sources.
#[derive(Debug, Clone, PartialEq)]
pub struct BundleStatus {
    pub bundle_name: String,
    pub bundle_source: Option<String>,
    pub sources: Vec<SourceStatus>,
}

/// The update flags of a list of source statuses.
pub open spec fn flags(ss: Seq<SourceStatus>) -> Seq<Option<bool>> {
    Seq::new(ss.len(), |i: int| ss[i].has_update)
}

/// How many flags equal `v`.
pub open spec fn count_flag(fs: Seq<Option<bool>>, v: Option<bool>) -> nat
    decreases fs.len(),
{
    if fs.len() == 0 {
        0
    } else {
        count_flag(fs.drop_last(), v) + if fs.last() == v {
            1nat
        } else {
            0nat
        }
    }
}

/// The statuses whose flag is `v`, in order.
pub open spec fn with_flag(ss: Seq<SourceStatus>, v: Option<bool>) -> Seq<SourceStatus>
    decreases ss.len(),
{
    if ss.len() == 0 {
        Seq::empty()
    } else {
        let acc = with_flag(ss.drop_last(), v);
        if ss.last().has_update == v {
            acc.push(ss.last())
        } else {
            acc
        }
    }
}

/// The summary line for the given counts.
pub open spec fn summary_model(updates: nat, up_to_date: nat, unknown: nat, total: nat) -> Seq<char> {
    if updates > 0 {
        decimal(updates) + " update(s) available ("@ + decimal(up_to_date) + " up to date, "@ + decimal(
            unknown,
        ) + " unknown)"@
    } else if unknown > 0 {
        "Up to date ("@ + decimal(unknown) + " source(s) could not be checked)"@
    } else {
        "All "@ + decimal(total) + " source(s) up to date"@
    }
}

fn select(ss: &Vec<SourceStatus>, v: Option<bool>) -> (r: Vec<&SourceStatus>)
    ensures
        Seq::new(r@.len(), |i: int| *r@[i]) == with_flag(ss@, v),
{
    let mut out: Vec<&SourceStatus> = Vec::new();
    let mut i: usize = 0;
    assert(ss@.take(0) =~= Seq::<SourceStatus>::empty());
    assert(Seq::new(out@.len(), |k: int| *out@[k]) =~= Seq::<SourceStatus>::empty());
    while i < ss.len()
        invariant
            i <= ss@.len(),
            Seq::new(out@.len(), |k: int| *out@[k]) == with_flag(ss@.take(i as int), v),
        decreases ss@.len() - i,
    {
        proof {
            let t = ss@.take(i + 1);
            assert(t.drop_last() =~= ss@.take(i as int));
            assert(t.last() == ss@[i as int]);
        }
        let ghost before = Seq::new(out@.len(), |k: int| *out@[k]);
        let s = &ss[i];
        let hit = match (s.has_update, v) {
            (Some(a), Some(b)) => a == b,
            (None, None) => true,
            _ => false,
        };
        if hit {
            out.push(s);
            assert(Seq::new(out@.len(), |k: int| *out@[k]) =~= before.push(ss@[i as int]));
        }
        i += 1;
    }
    assert(ss@.take(ss@.len() as int) =~= ss@);
    out
}

impl BundleStatus {
    /// Whether any source has an update.
    pub fn has_updates(&self) -> (r: bool)
        ensures
            r == exists|i: int| 0 <= i < self.sources@.len() && (#[trigger] self.sources@[i]).has_update == Some(true),
    {
        let mut i: usize = 0;
        while i < self.sources.len()
            invariant
                i <= self.sources@.len(),
                forall|k: int| 0 <= k < i ==> (#[trigger] self.sources@[k]).has_update != Some(true),
            decreases self.sources@.len() - i,
        {
            if self.sources[i].has_update == Some(true) {
                assert(self.sources@[i as int].has_update == Some(true));
                return true;
            }
            i += 1;
        }
        false
    }

    /// The sources with an update, in order.
    pub fn updateable_sources(&self) -> (r: Vec<&SourceStatus>)
        ensures
            Seq::new(r@.len(), |i: int| *r@[i]) == with_flag(self.sources@, Some(true)),
    {
        select(&self.sources, Some(true))
    }

    /// The sources that are up to date, in order.
    pub fn up_to_date_sources(&self) -> (r: Vec<&SourceStatus>)
        ensures
            Seq::new(r@.len(), |i: int| *r@[i]) == with_flag(self.sources@, Some(false)),
    {
        select(&self.sources, Some(false))
    }

    /// The sources whose status is unknown, in order.
    pub fn unknown_sources(&self) -> (r: Vec<&SourceStatus>)
        ensures
            Seq::new(r@.len(), |i: int| *r@[i]) == with_flag(self.sources@, None),
    {
        select(&self.sources, None)
    }

    /// The summary line (see `summary_model`).
    pub fn summary(&self) -> (r: String)
        ensures
            r@ == summary_model(
                count_flag(flags(self.sources@), Some(true)),
                count_flag(flags(self.sources@), Some(false)),
                count_flag(flags(self.sources@), None),
                self.sources@.len(),
            ),
    {
        let ghost fs = flags(self.sources@);
        let mut updates: u64 = 0;
        let mut up_to_date: u64 = 0;
        let mut unknown: u64 = 0;
        let mut i: usize = 0;
        assert(fs.take(0) =~= Seq::<Option<bool>>::empty());
        while i < self.sources.len()
            invariant
                i <= self.sources@.len(),
                fs == flags(self.sources@),
                updates == count_flag(fs.take(i as int), Some(true)),
                up_to_date == count_flag(fs.take(i as int), Some(false)),
                unknown == count_flag(fs.take(i as int), None),
                updates + up_to_date + unknown == i,
            decreases self.sources@.len() - i,
        {
            proof {
                let t = fs.take(i + 1);
                assert(t.drop_last() =~= fs.take(i as int));
                assert(t.last() == fs[i as int]);
            }
            match self.sources[i].has_update {
                Some(true) => {
                    updates += 1;
                },
                Some(false) => {
                    up_to_date += 1;
                },
                None => {
                    unknown += 1;
                },
            }
            i += 1;
        }
        assert(fs.take(self.sources@.len() as int) =~= fs);
        if updates > 0 {
            let mut s = decimal_text(updates);
            push_str(&mut s, " update(s) available (");
            let a = decimal_text(up_to_date);
            push_str(&mut s, a.as_str());
            push_str(&mut s, " up to date, ");
            let b = decimal_text(unknown);
            push_str(&mut s, b.as_str());
            push_str(&mut s, " unknown)");
            s
        } else if unknown > 0 {
            let mut s = str_to_string("Up to date (");
            let b = decimal_text(unknown);
            push_str(&mut s, b.as_str());
            push_str(&mut s, " source(s) could not be checked)");
            s
        } else {
            let mut s = str_to_string("All ");
            let t = decimal_text(self.sources.len() as u64);
            push_str(&mut s, t.as_str());
            push_str(&mut s, " source(s) up to date");
            s
        }
    }
}

proof fn lemma_counts_split(fs: Seq<Option<bool>>)
    ensures
        count_flag(fs, Some(true)) + count_flag(fs, Some(false)) + count_flag(fs, None) == fs.len(),
    decreases fs.len(),
{
    if fs.len() > 0 {
        lemma_counts_split(fs.drop_last());
        match fs.last() {
            Some(true) => {},
            Some(false) => {},
            None => {},
        }
    }
}

proof fn lemma_with_flag_len(ss: Seq<SourceStatus>, v: Option<bool>)
    ensures
        with_flag(ss, v).len() == count_flag(flags(ss), v),
    decreases ss.len(),
{
    if ss.len() > 0 {
        lemma_with_flag_len(ss.drop_last(), v);
        assert(flags(ss).drop_last() =~= flags(ss.drop_last()));
    }
}

/// Every source is exactly one of: with an update, up to date, unknown.
pub proof fn law_statuses_partition_sources(ss: Seq<SourceStatus>)
    ensures
        with_flag(ss, Some(true)).len() + with_flag(ss, Some(false)).len() + with_flag(ss, None).len()
            == ss.len(),
{
    lemma_with_flag_len(ss, Some(true));
    lemma_with_flag_len(ss, Some(false));
    lemma_with_flag_len(ss, None);
    lemma_counts_split(flags(ss));
}

proof fn lemma_count_true_exists(ss: Seq<SourceStatus>)
    ensures
        (count_flag(flags(ss), Some(true)) > 0) == exists|i: int|
            0 <= i < ss.len() && (#[trigger] ss[i]).has_update == Some(true),
    decreases ss.len(),
{
    if ss.len() > 0 {
        let p = ss.drop_last();
        lemma_count_true_exists(p);
        assert(flags(ss).drop_last() =~= flags(p));
        if exists|i: int| 0 <= i < p.len() && (#[trigger] p[i]).has_update == Some(true) {
            let i = choose|i: int| 0 <= i < p.len() && (#[trigger] p[i]).has_update == Some(true);
            assert(ss[i] == p[i]);
        }
        if exists|i: int| 0 <= i < ss.len() && (#[trigger] ss[i]).has_update == Some(true) {
            let i = choose|i: int| 0 <= i < ss.len() && (#[trigger] ss[i]).has_update == Some(true);
            if i < ss.len() - 1 {
                assert(p[i] == ss[i]);
            }
        }
    }
}

/// `has_updates` agrees with the sources with an update and with the
/// summary: a bundle has updates exactly when some source is listed as
/// updateable, and that is exactly when the summary counts a positive number
/// of updates (and so reads "... update(s) available ...").
pub proof fn law_has_updates_agrees(ss: Seq<SourceStatus>)
    ensures
        (exists|i: int| 0 <= i < ss.len() && (#[trigger] ss[i]).has_update == Some(true)) == (with_flag(
            ss,
            Some(true),
        ).len() > 0),
        with_flag(ss, Some(true)).len() == count_flag(flags(ss), Some(true)),
{
    lemma_with_flag_len(ss, Some(true));
    lemma_count_true_exists(ss);
}

/// The summary reports updates exactly when there are some: it begins with
/// the number of updates followed by ` update(s) available` when that
/// number is positive, and with `Up to date` or `All` otherwise.
pub proof fn law_summary_reports_updates(updates: nat, up_to_date: nat, unknown: nat, total: nat)
    ensures
        is_prefix(decimal(updates) + " update(s) available"@, summary_model(updates, up_to_date, unknown, total))
            == (updates > 0),
{
    reveal_strlit(" update(s) available");
    reveal_strlit(" update(s) available (");
    reveal_strlit("Up to date (");
    reveal_strlit("All ");
    let p = decimal(updates) + " update(s) available"@;
    let sm = summary_model(updates, up_to_date, unknown, total);
    if updates > 0 {
        let rest = " update(s) available ("@ + decimal(up_to_date) + " up to date, "@ + decimal(unknown)
            + " unknown)"@;
        assert(sm =~= decimal(updates) + rest);
        assert(sm.take(p.len() as int) =~= p);
    } else {
        assert(decimal(0) == seq![digit_char(0)]);
        assert(p[0] == digit_char(0));
        if is_prefix(p, sm) {
            assert(sm.take(p.len() as int)[0] == sm[0]);
            if unknown > 0 {
                assert(sm[0] == 'U');
            } else {
                assert(sm[0] == 'A');
            }
        }
    }
}

/// The status of one source URI: a local file is up to date; any other is
/// unknown (its status is not checked). The bundle is named by the URI.
pub fn check_bundle_status(uri: &str) -> (r: Result<BundleStatus, BundleError>)
    ensures
        r matches Ok(bs) && bs.bundle_name@ == uri@ && opt_text_of(bs.bundle_source) == Some(uri@)
            && bs.sources@.len() == 1 && bs.sources@[0].uri@ == uri@ && bs.sources@[0].has_update == (if is_file_model(
            parse_uri_model(uri@),
        ) {
            Some(false)
        } else {
            None
        }) && !bs.sources@[0].is_cached && bs.sources@[0].error is None,
{
    let parsed = parse_uri(uri);
    let mut status = SourceStatus::new(uri);
    if parsed.is_file() {
        status.has_update = Some(false);
    }
    let mut sources: Vec<SourceStatus> = Vec::new();
    sources.push(status);
    Ok(BundleStatus { bundle_name: str_to_string(uri), bundle_source: Some(str_to_string(uri)), sources: sources })
}

/// The model of an optional text.
pub open spec fn opt_text_of(o: Option<String>) -> Option<Seq<char>> {
    match o {
        Some(s) => Some(s@),
        None => None,
    }
}

/// Updates a source URI: nothing to do for a local file; any other kind is
/// refused (updating it is not supported).
pub fn update_bundle(uri: &str) -> (r: Result<(), BundleError>)
    ensures
        is_file_model(parse_uri_model(uri@)) ==> r is Ok,
        !is_file_model(parse_uri_model(uri@)) ==> (r matches Err(BundleError::LoadError { reason }) && reason@
            == "Update not yet implemented for URI scheme '"@ + parse_uri_model(uri@).scheme + "': "@ + uri@),
{
    let parsed = parse_uri(uri);
    if parsed.is_file() {
        return Ok(());
    }
    let mut msg = str_to_string("Update not yet implemented for URI scheme '");
    push_str(&mut msg, parsed.scheme.as_str());
    push_str(&mut msg, "': ");
    push_str(&mut msg, uri);
    Err(BundleError::LoadError { reason: msg })
}

} // verus!
