//! Server-wide settings.

use crate::crypto;
use crate::text;
use crate::text::{chars_of, parse_uint, same_text};
use crate::types::ScopeFilter;
use vstd::prelude::*;
use vstd::slice::slice_to_vec;

verus! {

/// Turns a token id into a stable key for storage: its SHA-256 digest. The id
/// itself is never stored.
pub fn hash_token_id(token_id: &str) -> (r: String)
    ensures
        r@ == crypto::sha256_text(token_id@),
{
    crypto::sha256_hex(token_id)
}

/// A scope with a name, by which searches refer to it.
#[derive(Clone, Debug, Default)]
pub struct ScopeDef {
    pub shelf_ids: Vec<i64>,
    pub book_ids: Vec<i64>,
    pub chapter_ids: Vec<i64>,
    pub page_ids: Vec<i64>,
}

impl ScopeDef {
    /// The scope as a filter with the same ids.
    pub fn to_filter(&self) -> (r: ScopeFilter)
        ensures
            r.shelf_ids@ == self.shelf_ids@,
            r.book_ids@ == self.book_ids@,
            r.chapter_ids@ == self.chapter_ids@,
            r.page_ids@ == self.page_ids@,
    {
        ScopeFilter {
            shelf_ids: slice_to_vec(self.shelf_ids.as_slice()),
            book_ids: slice_to_vec(self.book_ids.as_slice()),
            chapter_ids: slice_to_vec(self.chapter_ids.as_slice()),
            page_ids: slice_to_vec(self.page_ids.as_slice()),
        }
    }
}

/// How many candidates each stage of a precise search takes in, as multiples of
/// the wanted number of results.
#[derive(Clone, Copy, Debug)]
pub struct CascadeMultipliers {
    pub stage1: u32,
    pub stage2: u32,
    pub stage3: u32,
    pub stage4: u32,
}

/// The usual multiplier of the first stage.
pub fn default_stage1_mult() -> (r: u32)
    ensures
        r == 4,
{
    4
}

/// The usual multiplier of the second stage.
pub fn default_stage2_mult() -> (r: u32)
    ensures
        r == 3,
{
    3
}

/// The usual multiplier of the third stage.
pub fn default_stage3_mult() -> (r: u32)
    ensures
        r == 2,
{
    2
}

/// The usual multiplier of the fourth stage.
pub fn default_stage4_mult() -> (r: u32)
    ensures
        r == 1,
{
    1
}

/// The usual multipliers: 4, 3, 2 and 1.
pub open spec fn usual_multipliers() -> CascadeMultipliers {
    CascadeMultipliers { stage1: 4, stage2: 3, stage3: 2, stage4: 1 }
}

impl Default for CascadeMultipliers {
    fn default() -> (r: Self)
        ensures
            r == usual_multipliers(),
    {
        CascadeMultipliers {
            stage1: default_stage1_mult(),
            stage2: default_stage2_mult(),
            stage3: default_stage3_mult(),
            stage4: default_stage4_mult(),
        }
    }
}

/// What a setting makes of a multiplier: a positive whole number replaces it,
/// anything else leaves it.
pub open spec fn overridden(current: u32, setting: Option<Seq<char>>) -> u32 {
    match setting {
        Some(v) => match text::parsed_uint(v, u32::MAX as nat) {
            Some(n) => if n > 0 {
                n as u32
            } else {
                current
            },
            None => current,
        },
        None => current,
    }
}

/// Applies one setting to a multiplier.
fn override_one(current: u32, setting: Option<&str>) -> (r: u32)
    ensures
        r == overridden(current, text::opt_str(setting)),
{
    match setting {
        Some(v) => {
            let chars = chars_of(v);
            match parse_uint(chars.as_slice(), u32::MAX as u64) {
                Some(n) => if n > 0 {
                    n as u32
                } else {
                    current
                },
                None => current,
            }
        },
        None => current,
    }
}

impl CascadeMultipliers {
    /// The multipliers do not grow from stage to stage, and the last is at
    /// least one.
    pub open spec fn is_cascade(self) -> bool {
        self.stage1 >= self.stage2 >= self.stage3 >= self.stage4 >= 1
    }

    /// Applies the settings of the environment, one per stage, on top of the
    /// stored multipliers.
    pub fn apply_overrides(
        &mut self,
        stage1: Option<&str>,
        stage2: Option<&str>,
        stage3: Option<&str>,
        stage4: Option<&str>,
    )
        ensures
            final(self).stage1 == overridden(old(self).stage1, text::opt_str(stage1)),
            final(self).stage2 == overridden(old(self).stage2, text::opt_str(stage2)),
            final(self).stage3 == overridden(old(self).stage3, text::opt_str(stage3)),
            final(self).stage4 == overridden(old(self).stage4, text::opt_str(stage4)),
    {
        self.stage1 = override_one(self.stage1, stage1);
        self.stage2 = override_one(self.stage2, stage2);
        self.stage3 = override_one(self.stage3, stage3);
        self.stage4 = override_one(self.stage4, stage4);
    }

    /// The multipliers where they form a cascade, else the usual ones.
    pub fn validated(self) -> (r: Self)
        ensures
            r == if self.is_cascade() {
                self
            } else {
                usual_multipliers()
            },
    {
        if self.stage1 >= self.stage2 && self.stage2 >= self.stage3 && self.stage3 >= self.stage4
            && self.stage4 >= 1 {
            self
        } else {
            CascadeMultipliers::default()
        }
    }
}

/// What validation returns.
pub open spec fn validation(m: CascadeMultipliers) -> CascadeMultipliers {
    if m.is_cascade() {
        m
    } else {
        usual_multipliers()
    }
}

/// Validated multipliers always form a cascade, and validating them again
/// changes nothing. So no stage takes in fewer candidates than the next one,
/// whatever number of results is wanted.
pub proof fn law_validated_is_cascade(m: CascadeMultipliers, results: nat)
    ensures
        validation(m).is_cascade(),
        validation(validation(m)) == validation(m),
        results * validation(m).stage1 >= results * validation(m).stage2 >= results * validation(
            m,
        ).stage3 >= results * validation(m).stage4 >= results,
{
    let v = validation(m);
    assert(results * v.stage1 >= results * v.stage2 >= results * v.stage3 >= results * v.stage4
        >= results) by (nonlinear_arith)
        requires
            v.stage1 >= v.stage2 >= v.stage3 >= v.stage4 >= 1,
            results >= 0,
    ;
}

/// Settings that all users of one wiki share.
#[derive(Clone, Debug)]
pub struct GlobalSettings {
    /// Scopes by name; no name occurs twice.
    pub kb_scopes: Vec<(String, ScopeDef)>,
    /// Candidate multipliers of precise searches.
    pub cascade_multipliers: CascadeMultipliers,
    /// The hashed id of the first token that stored the settings.
    pub set_by_token_hash: Option<String>,
    /// Unix seconds of the last update; zero where there was none.
    pub updated_at: i64,
}

/// The first scope with the given name, from position `i` on.
pub open spec fn scope_from(scopes: Seq<(String, ScopeDef)>, name: Seq<char>, i: int) -> Option<
    ScopeDef,
>
    decreases scopes.len() - i,
{
    if i < 0 || i >= scopes.len() {
        None
    } else if scopes[i].0@ == name {
        Some(scopes[i].1)
    } else {
        scope_from(scopes, name, i + 1)
    }
}

/// No name occurs twice.
pub open spec fn names_differ(scopes: Seq<(String, ScopeDef)>) -> bool {
    forall|i: int, j: int|
        0 <= i < j < scopes.len() ==> (#[trigger] scopes[i]).0@ != (#[trigger] scopes[j]).0@
}

proof fn lemma_scope_from(scopes: Seq<(String, ScopeDef)>, name: Seq<char>, i: int)
    requires
        0 <= i,
    ensures
        match scope_from(scopes, name, i) {
            Some(scope) => exists|k: int|
                i <= k < scopes.len() && (#[trigger] scopes[k]).0@ == name && scopes[k].1 == scope,
            None => forall|k: int| i <= k < scopes.len() ==> (#[trigger] scopes[k]).0@ != name,
        },
    decreases scopes.len() - i,
{
    if i < scopes.len() && scopes[i].0@ != name {
        lemma_scope_from(scopes, name, i + 1);
    }
}

/// Where names differ, a scope is found under its name.
proof fn lemma_scope_at(scopes: Seq<(String, ScopeDef)>, k: int)
    requires
        names_differ(scopes),
        0 <= k < scopes.len(),
    ensures
        scope_from(scopes, scopes[k].0@, 0) == Some(scopes[k].1),
{
    lemma_scope_from(scopes, scopes[k].0@, 0);
    let found = choose|i: int|
        0 <= i < scopes.len() && (#[trigger] scopes[i]).0@ == scopes[k].0@ && scope_from(
            scopes,
            scopes[k].0@,
            0,
        ) == Some(scopes[i].1);
    if found < k {
        assert(scopes[found].0@ != scopes[k].0@);
    } else if k < found {
        assert(scopes[k].0@ != scopes[found].0@);
    }
}

impl GlobalSettings {
    /// No two scopes have the same name.
    pub open spec fn well_formed(self) -> bool {
        names_differ(self.kb_scopes@)
    }

    /// The scope with the given name.
    pub open spec fn scope_named(self, name: Seq<char>) -> Option<ScopeDef> {
        scope_from(self.kb_scopes@, name, 0)
    }

    /// Where a name stands among the scopes.
    fn position(&self, name: &str) -> (r: Option<usize>)
        ensures
            match r {
                Some(i) => i < self.kb_scopes@.len() && self.kb_scopes@[i as int].0@ == name@
                    && self.scope_named(name@) == Some(self.kb_scopes@[i as int].1),
                None => self.scope_named(name@) is None,
            },
    {
        let mut i: usize = 0;
        while i < self.kb_scopes.len()
            invariant
                i <= self.kb_scopes@.len(),
                self.scope_named(name@) == scope_from(self.kb_scopes@, name@, i as int),
            decreases self.kb_scopes@.len() - i,
        {
            if same_text(self.kb_scopes[i].0.as_str(), name) {
                return Some(i);
            }
            i += 1;
        }
        None
    }

    /// Looks a scope up by its name.
    pub fn scope(&self, name: &str) -> (r: Option<&ScopeDef>)
        ensures
            match r {
                Some(scope) => self.scope_named(name@) == Some(*scope),
                None => self.scope_named(name@) is None,
            },
    {
        match self.position(name) {
            Some(i) => Some(&self.kb_scopes[i].1),
            None => None,
        }
    }

    /// Gives a name to a scope, in place of the one that had it.
    pub fn put_scope(&mut self, name: &str, scope: ScopeDef)
        requires
            old(self).well_formed(),
        ensures
            final(self).well_formed(),
            final(self).scope_named(name@) == Some(scope),
            forall|other: Seq<char>|
                other != name@ ==> #[trigger] final(self).scope_named(other) == old(
                    self,
                ).scope_named(other),
            final(self).cascade_multipliers == old(self).cascade_multipliers,
            final(self).set_by_token_hash == old(self).set_by_token_hash,
            final(self).updated_at == old(self).updated_at,
    {
        let ghost before = self.kb_scopes@;
        match self.position(name) {
            Some(i) => {
                self.kb_scopes.set(i, (name.to_owned(), scope));
                proof {
                    let after = self.kb_scopes@;
                    assert forall|a: int, b: int| 0 <= a < b < after.len() implies (
                    #[trigger] after[a]).0@ != (#[trigger] after[b]).0@ by {
                        assert(before[a].0@ != before[b].0@);
                    }
                    lemma_scope_at(after, i as int);
                }
            },
            None => {
                proof {
                    lemma_scope_from(before, name@, 0);
                }
                self.kb_scopes.push((name.to_owned(), scope));
                proof {
                    lemma_scope_at(self.kb_scopes@, before.len() as int);
                }
            },
        }
        proof {
            let after = self.kb_scopes@;
            assert forall|other: Seq<char>| other != name@ implies #[trigger] self.scope_named(other)
                == old(self).scope_named(other) by {
                lemma_same_elsewhere(before, after, name@, other, 0);
            }
        }
    }
}

/// A name is found alike in two lists that agree but for another name.
proof fn lemma_same_elsewhere(
    before: Seq<(String, ScopeDef)>,
    after: Seq<(String, ScopeDef)>,
    name: Seq<char>,
    other: Seq<char>,
    i: int,
)
    requires
        0 <= i,
        other != name,
        before.len() <= after.len(),
        forall|k: int|
            0 <= k < before.len() ==> (#[trigger] after[k] == before[k] || (after[k].0@ == name
                && before[k].0@ == name)),
        forall|k: int| before.len() <= k < after.len() ==> (#[trigger] after[k]).0@ == name,
    ensures
        scope_from(after, other, i) == scope_from(before, other, i),
    decreases after.len() - i,
{
    if i < after.len() {
        assert(after[i] == after[i]);
        if i < before.len() {
            assert(after[i] == before[i] || (after[i].0@ == name && before[i].0@ == name));
        } else {
            assert(after[i].0@ == name);
        }
        lemma_same_elsewhere(before, after, name, other, i + 1);
    }
}

impl Default for GlobalSettings {
    fn default() -> (r: Self)
        ensures
            r.kb_scopes@.len() == 0,
            r.well_formed(),
            r.cascade_multipliers == usual_multipliers(),
            r.set_by_token_hash is None,
            r.updated_at == 0,
    {
        GlobalSettings {
            kb_scopes: Vec::new(),
            cascade_multipliers: CascadeMultipliers::default(),
            set_by_token_hash: None,
            updated_at: 0,
        }
    }
}

/// Whose hash is stored with the settings: that of the first token that stored
/// any, for good.
pub fn stored_setter(existing: Option<&str>, current: &str) -> (r: String)
    ensures
        r@ == match existing {
            Some(e) => e@,
            None => current@,
        },
{
    match existing {
        Some(e) => e.to_owned(),
        None => current.to_owned(),
    }
}

} // verus!
