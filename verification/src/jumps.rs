//! Walking the chain of SSH jump profiles.
//!
//! A profile may name another profile to jump through, which may name
//! another, and so on. Two walks follow such a chain one stored profile at
//! a time: the check made before a jump reference is saved, and the
//! resolution of the chain a connection goes through. The caller looks the
//! profiles up and hands each result back; the walks decide. Both refuse a
//! chain that returns to a profile already on it and one longer than the
//! limit, so neither can run forever.

use crate::error::AppError;
use crate::headers::str_eq;
use crate::models::SshProfileRuntimeConfig;
use crate::text::{concat, from_chars, to_chars, trim, trim_ws};
use vstd::prelude::*;

verus! {

/// The most profiles a jump chain may hold.
pub const MAX_SSH_JUMP_DEPTH: usize = 8;

/// An optional text trimmed, absent when blank.
pub open spec fn normalized(o: Option<Seq<char>>) -> Option<Seq<char>> {
    match o {
        Some(s) => if trim(s).len() == 0 {
            None
        } else {
            Some(trim(s))
        },
        None => None,
    }
}

/// The view of an optional string.
pub open spec fn opt_string_view(o: Option<String>) -> Option<Seq<char>> {
    match o {
        Some(s) => Some(s@),
        None => None,
    }
}

/// The view of an optional string slice.
pub open spec fn opt_str_view(o: Option<&str>) -> Option<Seq<char>> {
    match o {
        Some(s) => Some(s@),
        None => None,
    }
}

/// An optional text trimmed, `None` when absent or blank.
pub fn normalized_optional(value: Option<&str>) -> (r: Option<String>)
    ensures
        opt_string_view(r) == normalized(opt_str_view(value)),
{
    match value {
        Some(s) => {
            let v = to_chars(s);
            let t = trim_ws(v.as_slice());
            if t.len() == 0 {
                None
            } else {
                Some(from_chars(t.as_slice()))
            }
        },
        None => None,
    }
}

fn string_in(v: &Vec<String>, s: &str) -> (r: bool)
    ensures
        r == v@.map_values(|x: String| x@).contains(s@),
{
    let ghost vs = v@.map_values(|x: String| x@);
    let n = v.len();
    let mut i: usize = 0;
    while i < n
        invariant
            n == v@.len(),
            vs == v@.map_values(|x: String| x@),
            i <= n,
            forall|j: int| 0 <= j < i ==> vs[j] != s@,
        decreases n - i,
    {
        if str_eq(v[i].as_str(), s) {
            assert(vs[i as int] == s@);
            return true;
        }
        i = i + 1;
    }
    false
}

// ---------------------------------------------------------------------------
// Checking a jump reference before it is saved
// ---------------------------------------------------------------------------

/// The check of a jump reference: the profiles seen so far and the one to
/// look up next.
pub struct JumpReferenceCheck {
    current: Option<String>,
    first: String,
    visited: Vec<String>,
    next: Option<String>,
}

impl JumpReferenceCheck {
    /// The profile being saved, if it exists already.
    pub closed spec fn current(&self) -> Option<Seq<char>> {
        opt_string_view(self.current)
    }

    /// The jump profile named by the reference, trimmed.
    pub closed spec fn first(&self) -> Seq<char> {
        self.first@
    }

    /// The profiles seen so far, in order.
    pub closed spec fn visited(&self) -> Seq<Seq<char>> {
        self.visited@.map_values(|x: String| x@)
    }

    /// The profile to look up next; `None` when the chain has ended.
    pub closed spec fn pending(&self) -> Option<Seq<char>> {
        opt_string_view(self.next)
    }

    /// No profile is seen twice, the chain stays within the limit, and the
    /// profile being saved is not on it.
    #[verifier::type_invariant]
    closed spec fn inv(&self) -> bool {
        &&& self.visited().no_duplicates()
        &&& self.visited().len() <= MAX_SSH_JUMP_DEPTH
        &&& forall|i: int| 0 <= i < self.visited().len() ==> Some(#[trigger] self.visited()[i]) != self.current()
    }

    /// Starts the check of `jump_profile_id` for the profile
    /// `current_profile_id`. Nothing to check (`Ok(None)`) when the
    /// reference is blank; refused when a profile names itself.
    pub fn start(current_profile_id: Option<&str>, jump_profile_id: Option<&str>) -> (r: Result<Option<JumpReferenceCheck>, AppError>)
        ensures
            normalized(opt_str_view(jump_profile_id)) is None ==> r matches Ok(None),
            normalized(opt_str_view(jump_profile_id)) matches Some(j) ==> (if opt_str_view(current_profile_id) == Some(j) {
                r matches Err(AppError::InvalidInput(m)) && m@ == "SSH Profile 不能选择自己作为跳板"@
            } else {
                r matches Ok(Some(c)) && c.current() == opt_str_view(current_profile_id) && c.first() == j
                    && c.visited() == Seq::<Seq<char>>::empty() && c.pending() == Some(j)
            }),
    {
        let jump = match normalized_optional(jump_profile_id) {
            Some(j) => j,
            None => return Ok(None),
        };
        let current: Option<String> = match current_profile_id {
            Some(c) => {
                if str_eq(c, jump.as_str()) {
                    return Err(AppError::InvalidInput(String::from_str("SSH Profile 不能选择自己作为跳板")));
                }
                Some(String::from_str(c))
            },
            None => None,
        };
        let check = JumpReferenceCheck {
            current,
            first: jump.clone(),
            visited: Vec::new(),
            next: Some(jump),
        };
        assert(check.visited() =~= Seq::<Seq<char>>::empty());
        Ok(Some(check))
    }

    /// The profile to look up next, if the chain goes on.
    pub fn next_id(&self) -> (r: Option<&str>)
        ensures
            opt_str_view(r) == self.pending(),
    {
        match &self.next {
            Some(s) => Some(s.as_str()),
            None => None,
        }
    }

    /// Takes the pending profile onto the chain, before it is looked up: a
    /// profile seen before is a cycle, the chain may not pass the limit, and
    /// it may not reach the profile being saved.
    pub fn visit(&mut self) -> (r: Result<(), AppError>)
        requires
            old(self).pending() is Some,
        ensures
            ({
                let id = old(self).pending()->0;
                if old(self).visited().contains(id) {
                    r matches Err(AppError::InvalidInput(m)) && m@ == "SSH 跳板链存在循环引用"@
                } else if old(self).visited().len() + 1 > MAX_SSH_JUMP_DEPTH {
                    r matches Err(AppError::InvalidInput(m)) && m@ == "SSH 跳板链最多支持 8 级"@
                } else if old(self).current() == Some(id) {
                    r matches Err(AppError::InvalidInput(m)) && m@ == "SSH 跳板链不能形成循环引用"@
                } else {
                    r is Ok && final(self).visited() == old(self).visited().push(id)
                        && final(self).pending() == old(self).pending()
                }
            }),
            final(self).current() == old(self).current(),
            final(self).first() == old(self).first(),
    {
        proof {
            use_type_invariant(&*self);
        }
        let id: String = match &self.next {
            Some(s) => s.clone(),
            None => return Ok(()),
        };
        if string_in(&self.visited, id.as_str()) {
            return Err(AppError::InvalidInput(String::from_str("SSH 跳板链存在循环引用")));
        }
        if self.visited.len() + 1 > MAX_SSH_JUMP_DEPTH {
            return Err(AppError::InvalidInput(String::from_str("SSH 跳板链最多支持 8 级")));
        }
        let is_current = match &self.current {
            Some(c) => str_eq(c.as_str(), id.as_str()),
            None => false,
        };
        if is_current {
            return Err(AppError::InvalidInput(String::from_str("SSH 跳板链不能形成循环引用")));
        }
        let ghost before = self.visited();
        let mut visited = Vec::new();
        std::mem::swap(&mut visited, &mut self.visited);
        visited.push(id);
        proof {
            let after = visited@.map_values(|x: String| x@);
            assert(after =~= before.push(visited@.last()@));
            assert forall|a: int, b: int| 0 <= a < after.len() && 0 <= b < after.len() && a != b implies after[a] != after[b] by {
                if a < before.len() && b < before.len() {
                    assert(after[a] == before[a] && after[b] == before[b]);
                } else if a == before.len() {
                    assert(after[b] == before[b]);
                    assert(before.contains(after[b]));
                } else {
                    assert(after[a] == before[a]);
                    assert(before.contains(after[a]));
                }
            }
        }
        self.visited = visited;
        Ok(())
    }

    /// Takes the result of looking the visited profile up: `None` when it
    /// does not exist (reported under the first jump profile), otherwise the
    /// jump profile it names, which becomes the one to look up next.
    pub fn after_lookup(&mut self, found: Option<Option<String>>) -> (r: Result<(), AppError>)
        ensures
            match found {
                None => r matches Err(AppError::InvalidInput(m)) && m@ == "跳板 SSH Profile 不存在: "@
                    + old(self).first(),
                Some(j) => r is Ok && final(self).pending() == normalized(opt_string_view(j)),
            },
            final(self).visited() == old(self).visited(),
            final(self).current() == old(self).current(),
            final(self).first() == old(self).first(),
    {
        proof {
            use_type_invariant(&*self);
        }
        match found {
            None => {
                let lead = to_chars("跳板 SSH Profile 不存在: ");
                let f = to_chars(self.first.as_str());
                let m = concat(lead.as_slice(), f.as_slice());
                Err(AppError::InvalidInput(from_chars(m.as_slice())))
            },
            Some(j) => {
                let next = match &j {
                    Some(s) => normalized_optional(Some(s.as_str())),
                    None => None,
                };
                self.next = next;
                Ok(())
            },
        }
    }
}

// ---------------------------------------------------------------------------
// Resolving the chain a connection goes through
// ---------------------------------------------------------------------------

/// The chain of runtime profiles from a profile through its jump profiles.
pub struct RuntimeChain {
    visited: Vec<String>,
    next: Option<String>,
    chain: Vec<SshProfileRuntimeConfig>,
}

impl RuntimeChain {
    /// The profiles seen so far, in order.
    pub closed spec fn visited(&self) -> Seq<Seq<char>> {
        self.visited@.map_values(|x: String| x@)
    }

    /// The profile to load next; `None` when the chain has ended.
    pub closed spec fn pending(&self) -> Option<Seq<char>> {
        opt_string_view(self.next)
    }

    /// The profiles loaded so far, from the one asked for outwards.
    pub closed spec fn loaded(&self) -> Seq<SshProfileRuntimeConfig> {
        self.chain@
    }

    /// No profile is seen twice and no more are loaded than the limit.
    #[verifier::type_invariant]
    closed spec fn inv(&self) -> bool {
        &&& self.visited().no_duplicates()
        &&& self.chain@.len() <= MAX_SSH_JUMP_DEPTH
    }

    /// Starts at the profile `id`.
    pub fn start(id: &str) -> (r: RuntimeChain)
        ensures
            r.visited() == Seq::<Seq<char>>::empty(),
            r.loaded() == Seq::<SshProfileRuntimeConfig>::empty(),
            r.pending() == Some(id@),
    {
        let r = RuntimeChain { visited: Vec::new(), next: Some(String::from_str(id)), chain: Vec::new() };
        assert(r.visited() =~= Seq::<Seq<char>>::empty());
        r
    }

    /// The profile to load next, if the chain goes on.
    pub fn next_id(&self) -> (r: Option<&str>)
        ensures
            opt_str_view(r) == self.pending(),
    {
        match &self.next {
            Some(s) => Some(s.as_str()),
            None => None,
        }
    }

    /// Marks the pending profile as seen before it is loaded: one seen
    /// before is a cycle, and the chain may not grow past the limit.
    pub fn enter(&mut self) -> (r: Result<(), AppError>)
        requires
            old(self).pending() is Some,
        ensures
            ({
                let id = old(self).pending()->0;
                if old(self).visited().contains(id) {
                    r matches Err(AppError::InvalidInput(m)) && m@ == "SSH 跳板链存在循环引用"@
                } else if old(self).loaded().len() >= MAX_SSH_JUMP_DEPTH {
                    r matches Err(AppError::InvalidInput(m)) && m@ == "SSH 跳板链最多支持 8 级"@
                } else {
                    r is Ok && final(self).visited() == old(self).visited().push(id)
                }
            }),
            final(self).pending() == old(self).pending(),
            final(self).loaded() == old(self).loaded(),
    {
        proof {
            use_type_invariant(&*self);
        }
        let id: String = match &self.next {
            Some(s) => s.clone(),
            None => return Ok(()),
        };
        if string_in(&self.visited, id.as_str()) {
            return Err(AppError::InvalidInput(String::from_str("SSH 跳板链存在循环引用")));
        }
        if self.chain.len() >= MAX_SSH_JUMP_DEPTH {
            return Err(AppError::InvalidInput(String::from_str("SSH 跳板链最多支持 8 级")));
        }
        let ghost before = self.visited();
        let mut visited = Vec::new();
        std::mem::swap(&mut visited, &mut self.visited);
        visited.push(id);
        proof {
            let after = visited@.map_values(|x: String| x@);
            assert(after =~= before.push(visited@.last()@));
            assert forall|a: int, b: int| 0 <= a < after.len() && 0 <= b < after.len() && a != b implies after[a] != after[b] by {
                if a < before.len() && b < before.len() {
                    assert(after[a] == before[a] && after[b] == before[b]);
                } else if a == before.len() {
                    assert(after[b] == before[b]);
                    assert(before.contains(after[b]));
                } else {
                    assert(after[a] == before[a]);
                    assert(before.contains(after[a]));
                }
            }
        }
        self.visited = visited;
        Ok(())
    }

    /// Adds the loaded profile; the profile it jumps through, if any, is the
    /// one to load next.
    pub fn push(&mut self, profile: SshProfileRuntimeConfig)
        requires
            old(self).loaded().len() < old(self).visited().len(),
            old(self).loaded().len() < MAX_SSH_JUMP_DEPTH,
        ensures
            final(self).loaded() == old(self).loaded().push(profile),
            final(self).pending() == normalized(opt_string_view(profile.jump_profile_id)),
            final(self).visited() == old(self).visited(),
    {
        proof {
            use_type_invariant(&*self);
        }
        let next = match &profile.jump_profile_id {
            Some(s) => normalized_optional(Some(s.as_str())),
            None => None,
        };
        let mut chain = Vec::new();
        std::mem::swap(&mut chain, &mut self.chain);
        chain.push(profile);
        self.next = next;
        self.chain = chain;
    }

    /// The chain from the first hop to the profile asked for: the loaded
    /// profiles in reverse order.
    pub fn finish(self) -> (r: Vec<SshProfileRuntimeConfig>)
        ensures
            r@ == self.loaded().reverse(),
    {
        let mut rest = self.chain;
        let ghost all = rest@;
        let mut out: Vec<SshProfileRuntimeConfig> = Vec::new();
        while rest.len() > 0
            invariant
                rest@.len() <= all.len(),
                rest@ == all.take(rest@.len() as int),
                out@ == all.skip(rest@.len() as int).reverse(),
            decreases rest@.len(),
        {
            let ghost k = rest@.len() as int;
            let ghost prev_out = out@;
            let x = rest.pop().unwrap();
            assert(x == all[k - 1]);
            out.push(x);
            assert(rest@ =~= all.take(k - 1));
            assert(out@ =~= all.skip(k - 1).reverse()) by {
                assert(all.skip(k - 1) =~= seq![all[k - 1]] + all.skip(k));
                assert forall|i: int| 0 <= i < out@.len() implies out@[i] == all.skip(k - 1).reverse()[i] by {
                    if i < prev_out.len() {
                        assert(prev_out[i] == all.skip(k).reverse()[i]);
                    }
                }
            }
        }
        assert(all.skip(0) =~= all);
        out
    }
}

} // verus!
