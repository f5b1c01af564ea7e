//! Writable-target enforcement by glob patterns.
use crate::action::ActionType;
use crate::actor::{ActorRecord, WritableTarget};
use crate::errors::{KernelError, KernelResult};
use crate::text::{contains_str, contains_text, debug_strings, push_str, starts_with, str_eq};
use globset::GlobBuilder;
use vstd::prelude::*;
use vstd::string::*;

verus! {

/// Whether `target` matches the glob `pattern` (`*` stops at `/`, `**`
/// crosses it); false for a pattern that does not compile.
pub uninterp spec fn glob_matches(pattern: Seq<char>, target: Seq<char>) -> bool;

/// Calls `globset::GlobBuilder::new(pattern).literal_separator(true).build()`
/// and tests `target` with the compiled matcher; an invalid pattern matches
/// nothing.  The contract claims only that the answer depends on the two
/// strings alone.
#[verifier::external_body]
pub fn glob_match(pattern: &str, target: &str) -> (r: bool)
    ensures
        r == glob_matches(pattern@, target@),
{
    match GlobBuilder::new(pattern).literal_separator(true).build() {
        Ok(g) => g.compile_matcher().is_match(target),
        Err(_) => false,
    }
}

/// Whether a target path lies under a privileged prefix (`system/` or `ledger/`).
pub open spec fn is_privileged(target: Seq<char>) -> bool {
    (7 <= target.len() && target.take(7) == "system/"@) || (7 <= target.len() && target.take(7)
        == "ledger/"@)
}

/// Checks if a target path is a privileged target.
pub fn is_privileged_target(target: &str) -> (r: bool)
    ensures
        r == is_privileged(target@),
{
    proof {
        reveal_strlit("system/");
        reveal_strlit("ledger/");
    }
    starts_with(target, "system/") || starts_with(target, "ledger/")
}

/// Whether an actor holds the root wildcard `**` among its writable targets.
pub open spec fn has_root_wildcard(targets: Seq<WritableTarget>) -> bool {
    exists|i: int| 0 <= i < targets.len() && #[trigger] targets[i].target@ == "**"@
}

/// Whether some writable target matches `target` and lists `action`.
pub open spec fn grants(targets: Seq<WritableTarget>, target: Seq<char>, action: Seq<char>) -> bool {
    exists|i: int|
        0 <= i < targets.len() && glob_matches(#[trigger] targets[i].target@, target)
            && contains_text(targets[i].actions@, action)
}

/// Whether an actor may perform `action_type` on `target`: observe is exempt,
/// privileged targets need the `**` wildcard, and otherwise some writable
/// target must match and list the action (default deny).
pub open spec fn boundary_permits(actor: ActorRecord, target: Seq<char>, action_type: ActionType) -> bool {
    if action_type is Observe {
        true
    } else if is_privileged(target) {
        has_root_wildcard(actor.writable_targets@)
    } else {
        grants(actor.writable_targets@, target, action_type.spec_as_str())
    }
}

fn has_wildcard(targets: &[WritableTarget]) -> (r: bool)
    ensures
        r == has_root_wildcard(targets@),
{
    let mut i: usize = 0;
    while i < targets.len()
        invariant
            i <= targets@.len(),
            forall|j: int| 0 <= j < i ==> #[trigger] targets@[j].target@ != "**"@,
        decreases targets@.len() - i,
    {
        if str_eq(targets[i].target.as_str(), "**") {
            return true;
        }
        i = i + 1;
    }
    false
}

/// Grants privileged targets only to an actor holding `**`.
fn check_privileged_access(actor: &ActorRecord, target: &str) -> (r: KernelResult<()>)
    ensures
        r is Ok <==> has_root_wildcard(actor.writable_targets@),
        r matches Err(e) ==> e is BoundaryViolation,
{
    if has_wildcard(actor.writable_targets.as_slice()) {
        return Ok(());
    }
    let mut d = String::new();
    push_str(&mut d, "actor ");
    push_str(&mut d, actor.actor_id.as_str());
    push_str(&mut d, " denied access to privileged target ");
    push_str(&mut d, target);
    Err(KernelError::BoundaryViolation(d))
}

/// Checks whether an actor's writable targets permit `action_type` on `target`.
pub fn check_writable_boundary(actor: &ActorRecord, target: &str, action_type: &ActionType) -> (r:
    KernelResult<()>)
    ensures
        r is Ok <==> boundary_permits(*actor, target@, *action_type),
        r matches Err(e) ==> e is BoundaryViolation,
{
    if matches!(action_type, ActionType::Observe) {
        return Ok(());
    }
    if is_privileged_target(target) {
        return check_privileged_access(actor, target);
    }
    let action_str = action_type.as_str();
    let mut i: usize = 0;
    while i < actor.writable_targets.len()
        invariant
            i <= actor.writable_targets@.len(),
            action_str@ == action_type.spec_as_str(),
            !(*action_type is Observe),
            !is_privileged(target@),
            forall|j: int|
                0 <= j < i ==> !(glob_matches(#[trigger] actor.writable_targets@[j].target@, target@)
                    && contains_text(actor.writable_targets@[j].actions@, action_str@)),
        decreases actor.writable_targets@.len() - i,
    {
        let wt = &actor.writable_targets[i];
        if glob_match(wt.target.as_str(), target) && contains_str(wt.actions.as_slice(), action_str) {
            return Ok(());
        }
        i = i + 1;
    }
    let mut d = String::new();
    push_str(&mut d, "actor ");
    push_str(&mut d, actor.actor_id.as_str());
    push_str(&mut d, " has no writable_target granting ");
    push_str(&mut d, action_str);
    push_str(&mut d, " on ");
    push_str(&mut d, target);
    Err(KernelError::BoundaryViolation(d))
}

/// Whether a character has a meaning in a glob pattern.
pub open spec fn is_glob_char(c: char) -> bool {
    c == '*' || c == '?' || c == '[' || c == '{'
}

/// Whether a pattern holds a glob character.
pub open spec fn has_glob(s: Seq<char>) -> bool {
    exists|i: int| 0 <= i < s.len() && is_glob_char(#[trigger] s[i])
}

/// Whether a parent pattern contains a child pattern: `**` contains
/// everything and a pattern contains itself; a literal child is contained
/// where the parent glob matches it; a child with glob characters is
/// contained only by a parent `P/**`, `P` literal, that the child lies under.
pub open spec fn covers(parent: Seq<char>, child: Seq<char>) -> bool {
    if parent == "**"@ || parent == child {
        true
    } else if has_glob(child) {
        let n = parent.len() - 2;
        &&& parent.len() >= 3
        &&& parent.skip(parent.len() - 3) == "/**"@
        &&& !has_glob(parent.take(n))
        &&& child.len() >= n
        &&& child.take(n) == parent.take(n)
    } else {
        glob_matches(parent, child)
    }
}

fn has_glob_exec(s: &[char], n: usize) -> (r: bool)
    requires
        n <= s@.len(),
    ensures
        r == has_glob(s@.take(n as int)),
{
    let mut i: usize = 0;
    while i < n
        invariant
            n <= s@.len(),
            i <= n,
            forall|j: int| 0 <= j < i ==> !is_glob_char(#[trigger] s@[j]),
        decreases n - i,
    {
        let c = s[i];
        if c == '*' || c == '?' || c == '[' || c == '{' {
            assert(s@.take(n as int)[i as int] == c);
            return true;
        }
        i = i + 1;
    }
    assert forall|j: int| 0 <= j < n implies !is_glob_char(#[trigger] s@.take(n as int)[j]) by {
        assert(s@.take(n as int)[j] == s@[j]);
    }
    false
}

fn pattern_covers(parent_pattern: &str, child_pattern: &str) -> (r: bool)
    ensures
        r == covers(parent_pattern@, child_pattern@),
{
    proof {
        reveal_strlit("**");
        reveal_strlit("/**");
        assert("/**"@.len() == 3 && "/**"@[0] == '/' && "/**"@[1] == '*' && "/**"@[2] == '*');
    }
    if str_eq(parent_pattern, "**") {
        return true;
    }
    if str_eq(parent_pattern, child_pattern) {
        return true;
    }
    let c = crate::text::chars_of(child_pattern);
    proof {
        assert(c@.take(c@.len() as int) =~= c@);
    }
    if !has_glob_exec(c.as_slice(), c.len()) {
        return glob_match(parent_pattern, child_pattern);
    }
    let p = crate::text::chars_of(parent_pattern);
    if p.len() < 3 || p[p.len() - 3] != '/' || p[p.len() - 2] != '*' || p[p.len() - 1] != '*' {
        proof {
            if p@.len() >= 3 && p@.skip(p@.len() - 3) == "/**"@ {
                assert(p@.skip(p@.len() - 3)[0] == p@[p@.len() - 3]);
                assert(p@.skip(p@.len() - 3)[1] == p@[p@.len() - 2]);
                assert(p@.skip(p@.len() - 3)[2] == p@[p@.len() - 1]);
            }
        }
        return false;
    }
    proof {
        assert(p@.skip(p@.len() - 3) =~= "/**"@);
    }
    let n = p.len() - 2;
    if has_glob_exec(p.as_slice(), n) {
        return false;
    }
    if c.len() < n {
        return false;
    }
    let mut i: usize = 0;
    while i < n
        invariant
            n <= p@.len(),
            n <= c@.len(),
            i <= n,
            forall|j: int| 0 <= j < i ==> c@[j] == p@[j],
            c@ == child_pattern@,
            p@ == parent_pattern@,
            parent_pattern@ != "**"@,
            parent_pattern@ != child_pattern@,
            has_glob(child_pattern@),
            n == p@.len() - 2,
        decreases n - i,
    {
        if c[i] != p[i] {
            assert(c@.take(n as int)[i as int] != p@.take(n as int)[i as int]);
            return false;
        }
        i = i + 1;
    }
    assert(c@.take(n as int) =~= p@.take(n as int));
    true
}

/// Whether every string of `sub` occurs in `sup`.
pub open spec fn all_contained(sub: Seq<String>, sup: Seq<String>) -> bool {
    forall|i: int| 0 <= i < sub.len() ==> contains_text(sup, #[trigger] sub[i]@)
}

fn all_contained_exec(sub: &[String], sup: &[String]) -> (r: bool)
    ensures
        r == all_contained(sub@, sup@),
{
    let mut i: usize = 0;
    while i < sub.len()
        invariant
            i <= sub@.len(),
            forall|j: int| 0 <= j < i ==> contains_text(sup@, #[trigger] sub@[j]@),
        decreases sub@.len() - i,
    {
        if !contains_str(sup, sub[i].as_str()) {
            return false;
        }
        i = i + 1;
    }
    true
}

/// Whether some parent target covers the child's pattern and all its actions.
pub open spec fn child_target_covered(parent: Seq<WritableTarget>, child: WritableTarget) -> bool {
    exists|j: int|
        0 <= j < parent.len() && covers(#[trigger] parent[j].target@, child.target@)
            && all_contained(child.actions@, parent[j].actions@)
}

/// Whether every child target is covered by the parent's boundary.
pub open spec fn child_targets_within(parent: Seq<WritableTarget>, child: Seq<WritableTarget>) -> bool {
    forall|i: int| 0 <= i < child.len() ==> child_target_covered(parent, #[trigger] child[i])
}

fn target_covered(parent: &[WritableTarget], child: &WritableTarget) -> (r: bool)
    ensures
        r == child_target_covered(parent@, *child),
{
    let mut j: usize = 0;
    while j < parent.len()
        invariant
            j <= parent@.len(),
            forall|k: int|
                0 <= k < j ==> !(covers(#[trigger] parent@[k].target@, child.target@)
                    && all_contained(child.actions@, parent@[k].actions@)),
        decreases parent@.len() - j,
    {
        if pattern_covers(parent[j].target.as_str(), child.target.as_str()) && all_contained_exec(
            child.actions.as_slice(),
            parent[j].actions.as_slice(),
        ) {
            return true;
        }
        j = j + 1;
    }
    false
}

/// The length of a pattern's literal part: the characters before its first
/// glob character.
pub open spec fn literal_len(s: Seq<char>) -> nat
    decreases s.len(),
{
    if s.len() == 0 || is_glob_char(s[0]) {
        0
    } else {
        1 + literal_len(s.drop_first())
    }
}

/// A pattern's literal prefix: every target that the pattern matches starts
/// with it.
pub open spec fn literal_prefix(s: Seq<char>) -> Seq<char> {
    s.take(literal_len(s) as int)
}

/// The literal part holds no glob character, and the character after it,
/// if any, is one.
proof fn lemma_literal_len(s: Seq<char>)
    ensures
        literal_len(s) <= s.len(),
        forall|i: int| 0 <= i < literal_len(s) ==> !is_glob_char(#[trigger] s[i]),
        literal_len(s) < s.len() ==> is_glob_char(s[literal_len(s) as int]),
    decreases s.len(),
{
    if s.len() > 0 && !is_glob_char(s[0]) {
        let t = s.drop_first();
        lemma_literal_len(t);
        assert forall|i: int| 0 <= i < literal_len(s) implies !is_glob_char(#[trigger] s[i]) by {
            if i > 0 {
                assert(s[i] == t[i - 1]);
            }
        }
        if literal_len(s) < s.len() {
            assert(s[literal_len(s) as int] == t[literal_len(t) as int]);
        }
    }
}

/// A pattern whose first `n` characters are glob-free has a literal part of
/// at least `n` characters.
proof fn lemma_literal_len_at_least(s: Seq<char>, n: int)
    requires
        0 <= n <= s.len(),
        forall|i: int| 0 <= i < n ==> !is_glob_char(#[trigger] s[i]),
    ensures
        literal_len(s) >= n,
    decreases n,
{
    if n > 0 {
        let t = s.drop_first();
        assert forall|i: int| 0 <= i < n - 1 implies !is_glob_char(#[trigger] t[i]) by {
            assert(t[i] == s[i + 1]);
        }
        assert(!is_glob_char(s[0]));
        lemma_literal_len_at_least(t, n - 1);
    }
}

/// A child pattern with glob characters lies within a parent pattern other
/// than `**` and itself only where the parent's literal prefix starts the
/// child's literal prefix: every target the child can match then starts with
/// the parent's literal prefix.  A child that does not start with the
/// parent's literal prefix is never contained.
pub proof fn law_glob_child_within_parent_prefix(parent: Seq<char>, child: Seq<char>)
    requires
        covers(parent, child),
        has_glob(child),
        parent != "**"@,
        parent != child,
    ensures
        literal_len(parent) <= literal_len(child),
        literal_prefix(child).take(literal_len(parent) as int) == literal_prefix(parent),
{
    let n = parent.len() - 2;
    lemma_literal_len(parent);
    lemma_literal_len(child);
    reveal_strlit("/**");
    assert(parent.skip(parent.len() - 3)[1] == parent[n]);
    assert(is_glob_char(parent[n]));
    assert forall|i: int| 0 <= i < n implies !is_glob_char(#[trigger] parent[i]) by {
        assert(parent.take(n)[i] == parent[i]);
        if is_glob_char(parent[i]) {
            assert(is_glob_char(parent.take(n)[i]));
        }
    }
    lemma_literal_len_at_least(parent, n);
    assert(literal_len(parent) == n);
    assert forall|i: int| 0 <= i < n implies !is_glob_char(#[trigger] child[i]) by {
        assert(child.take(n)[i] == child[i]);
        assert(parent.take(n)[i] == parent[i]);
    }
    lemma_literal_len_at_least(child, n);
    assert(literal_prefix(child).take(n) =~= literal_prefix(parent)) by {
        assert forall|i: int| 0 <= i < n implies literal_prefix(child).take(n)[i] == literal_prefix(parent)[i] by {
            assert(child.take(n)[i] == child[i]);
            assert(parent.take(n)[i] == parent[i]);
        }
    }
}

/// A literal child pattern (one target) lies within a parent pattern only
/// where the parent is `**`, the same text, or a glob that matches the
/// child's target.
pub proof fn law_literal_child_matched_by_parent(parent: Seq<char>, child: Seq<char>)
    requires
        covers(parent, child),
        !has_glob(child),
    ensures
        parent == "**"@ || parent == child || glob_matches(parent, child),
{
}

/// Validates that a child actor's writable targets lie within the parent's
/// boundary: each child pattern is covered by a parent pattern that also
/// allows every action the child claims.
pub fn validate_child_targets(parent: &ActorRecord, child_targets: &[WritableTarget]) -> (r:
    KernelResult<()>)
    ensures
        r is Ok <==> child_targets_within(parent.writable_targets@, child_targets@),
        r matches Err(e) ==> e is BoundaryViolation,
{
    let mut i: usize = 0;
    while i < child_targets.len()
        invariant
            i <= child_targets@.len(),
            forall|k: int|
                0 <= k < i ==> child_target_covered(parent.writable_targets@, #[trigger] child_targets@[k]),
        decreases child_targets@.len() - i,
    {
        let child = &child_targets[i];
        if !target_covered(parent.writable_targets.as_slice(), child) {
            let mut d = String::new();
            push_str(&mut d, "child writable_target '");
            push_str(&mut d, child.target.as_str());
            push_str(&mut d, "' with actions ");
            let listed = debug_strings(child.actions.as_slice());
            push_str(&mut d, listed.as_str());
            push_str(&mut d, " exceeds parent boundary");
            return Err(KernelError::BoundaryViolation(d));
        }
        i = i + 1;
    }
    Ok(())
}

} // verus!
