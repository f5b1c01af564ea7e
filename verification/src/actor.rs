//! Actor types, identity derivation, and lineage.
use crate::json::{
    entry, json_object, json_opt_str, json_str, json_strings, opt_str_view, strings_view, JsonNumber, JsonValue,
    JsonView,
};
use crate::text::{chars_of, int_text, push_i64, push_str, string_from_chars};
use vstd::prelude::*;
use vstd::slice::slice_subrange;
use vstd::string::*;

verus! {

/// Two immutable actor types: a direct human representative, or an agent
/// created by a human.
#[derive(Debug, Clone, Copy, PartialEq, Eq, Structural)]
pub enum ActorType {
    Human,
    Agent,
}

impl ActorType {
    pub open spec fn spec_as_str(&self) -> Seq<char> {
        match self {
            ActorType::Human => "human"@,
            ActorType::Agent => "agent"@,
        }
    }

    pub fn as_str(&self) -> (r: &'static str)
        ensures
            r@ == self.spec_as_str(),
    {
        match self {
            ActorType::Human => "human",
            ActorType::Agent => "agent",
        }
    }

    /// The type named `"human"` or `"agent"`.
    pub open spec fn parse_spec(s: Seq<char>) -> Option<ActorType> {
        if s == "human"@ {
            Some(ActorType::Human)
        } else if s == "agent"@ {
            Some(ActorType::Agent)
        } else {
            None
        }
    }

    /// Parses `"human"` or `"agent"`.
    pub fn parse(s: &str) -> (r: Option<ActorType>)
        ensures
            r == Self::parse_spec(s@),
            r == (if s@ == "human"@ {
                Some(ActorType::Human)
            } else if s@ == "agent"@ {
                Some(ActorType::Agent)
            } else {
                None
            }),
    {
        if crate::text::str_eq(s, "human") {
            Some(ActorType::Human)
        } else if crate::text::str_eq(s, "agent") {
            Some(ActorType::Agent)
        } else {
            None
        }
    }
}

/// Actor lifecycle status.
#[derive(Debug, Clone, Copy, PartialEq, Eq, Structural)]
pub enum ActorStatus {
    Active,
    Frozen,
}

impl ActorStatus {
    pub open spec fn spec_as_str(&self) -> Seq<char> {
        match self {
            ActorStatus::Active => "active"@,
            ActorStatus::Frozen => "frozen"@,
        }
    }

    pub fn as_str(&self) -> (r: &'static str)
        ensures
            r@ == self.spec_as_str(),
    {
        match self {
            ActorStatus::Active => "active",
            ActorStatus::Frozen => "frozen",
        }
    }

    /// Parses `"active"` or `"frozen"`.
    pub fn parse(s: &str) -> (r: Option<ActorStatus>)
        ensures
            r == (if s@ == "active"@ {
                Some(ActorStatus::Active)
            } else if s@ == "frozen"@ {
                Some(ActorStatus::Frozen)
            } else {
                None
            }),
    {
        if crate::text::str_eq(s, "active") {
            Some(ActorStatus::Active)
        } else if crate::text::str_eq(s, "frozen") {
            Some(ActorStatus::Frozen)
        } else {
            None
        }
    }
}

/// Writability declaration: a glob pattern and the action types allowed on it.
#[derive(Debug)]
pub struct WritableTarget {
    pub target: String,
    pub actions: Vec<String>,
}

/// Full actor record.  The energy share is kept as the JSON number it was
/// given as.
#[derive(Debug)]
pub struct ActorRecord {
    pub actor_id: String,
    pub actor_type: ActorType,
    pub creator_id: Option<String>,
    pub lineage: Vec<String>,
    pub purpose: Option<String>,
    pub status: ActorStatus,
    pub writable_targets: Vec<WritableTarget>,
    pub energy_share: JsonNumber,
    pub reduction_policy: String,
    pub created_at: String,
    pub updated_at: String,
}

/// Specification for creating a new actor.
#[derive(Debug)]
pub struct CreateActorSpec {
    pub actor_id: String,
    pub actor_type: ActorType,
    pub creator_id: String,
    pub lineage: Vec<String>,
    pub purpose: Option<String>,
    pub writable_targets: Vec<WritableTarget>,
    pub energy_balance: i64,
    pub energy_share: JsonNumber,
    pub reduction_policy: String,
}

/// Lifecycle operations on actors.
#[derive(Debug)]
pub enum LifecycleOp {
    /// Suspends all state-changing actions.
    Freeze { reason: Option<String> },
    /// Restores an actor to active.
    Unfreeze,
    /// Permanently stops an agent.
    Terminate { reason: Option<String> },
    /// Changes an actor's share of produced energy.
    UpdateEnergyShare { energy_share: JsonNumber },
}

/// Whether a character is kept (lowercased) in a purpose slug.
pub open spec fn is_slug_char(c: char) -> bool {
    ('a' <= c && c <= 'z') || ('A' <= c && c <= 'Z') || ('0' <= c && c <= '9') || c == '-'
}

/// A purpose character mapped to its slug character.
pub open spec fn slug_char(c: char) -> char {
    if 'A' <= c && c <= 'Z' {
        ((c as u32) + 32) as char
    } else if is_slug_char(c) {
        c
    } else {
        '-'
    }
}

/// Keeps each character except a hyphen that directly follows a hyphen.
pub open spec fn collapse_hyphens(s: Seq<char>) -> Seq<char>
    decreases s.len(),
{
    if s.len() == 0 {
        Seq::empty()
    } else {
        let p = collapse_hyphens(s.drop_last());
        if s.last() == '-' && s.len() >= 2 && s[s.len() - 2] == '-' {
            p
        } else {
            p.push(s.last())
        }
    }
}

pub open spec fn trim_start_hyphens(s: Seq<char>) -> Seq<char>
    decreases s.len(),
{
    if s.len() > 0 && s[0] == '-' {
        trim_start_hyphens(s.drop_first())
    } else {
        s
    }
}

pub open spec fn trim_end_hyphens(s: Seq<char>) -> Seq<char>
    decreases s.len(),
{
    if s.len() > 0 && s.last() == '-' {
        trim_end_hyphens(s.drop_last())
    } else {
        s
    }
}

/// Purpose slug: map characters, collapse hyphen runs, trim hyphens at both ends.
pub open spec fn sanitized(purpose: Seq<char>) -> Seq<char> {
    trim_end_hyphens(trim_start_hyphens(collapse_hyphens(purpose.map_values(|c| slug_char(c)))))
}

proof fn lemma_trim_start_suffix(s: Seq<char>, i: int)
    requires
        0 <= i <= s.len(),
        forall|k: int| 0 <= k < i ==> s[k] == '-',
    ensures
        trim_start_hyphens(s) == trim_start_hyphens(s.subrange(i, s.len() as int)),
    decreases i,
{
    if i > 0 {
        assert(s.drop_first().subrange(i - 1, s.drop_first().len() as int) =~= s.subrange(
            i,
            s.len() as int,
        ));
        lemma_trim_start_suffix(s.drop_first(), i - 1);
    } else {
        assert(s.subrange(0, s.len() as int) =~= s);
    }
}

proof fn lemma_trim_end_prefix(s: Seq<char>, j: int)
    requires
        0 <= j <= s.len(),
        forall|k: int| j <= k < s.len() ==> s[k] == '-',
    ensures
        trim_end_hyphens(s) == trim_end_hyphens(s.subrange(0, j)),
    decreases s.len() - j,
{
    if j < s.len() {
        assert(s.drop_last().subrange(0, j) =~= s.subrange(0, j));
        lemma_trim_end_prefix(s.drop_last(), j);
    } else {
        assert(s.subrange(0, j) =~= s);
    }
}

/// Sanitizes a purpose string for use in an actor ID: characters other than
/// ASCII letters, digits, and hyphens become hyphens, letters are lowercased,
/// hyphen runs collapse to one, and hyphens at both ends are removed.
pub fn sanitize_purpose(purpose: &str) -> (r: String)
    ensures
        r@ == sanitized(purpose@),
{
    let cs = chars_of(purpose);
    let ghost mapped = purpose@.map_values(|c| slug_char(c));
    let mut collapsed: Vec<char> = Vec::new();
    let mut prev_hyphen = false;
    let mut i: usize = 0;
    while i < cs.len()
        invariant
            cs@ == purpose@,
            mapped == purpose@.map_values(|c| slug_char(c)),
            i <= cs@.len(),
            collapsed@ == collapse_hyphens(mapped.take(i as int)),
            prev_hyphen == (i > 0 && mapped[i - 1] == '-'),
        decreases cs@.len() - i,
    {
        let c = cs[i];
        let m = if 'A' <= c && c <= 'Z' {
            ((c as u8) + 32) as char
        } else if ('a' <= c && c <= 'z') || ('0' <= c && c <= '9') || c == '-' {
            c
        } else {
            '-'
        };
        assert(m == mapped[i as int]);
        let ghost t = mapped.take(i as int + 1);
        assert(t.drop_last() =~= mapped.take(i as int));
        if m == '-' {
            if !prev_hyphen {
                collapsed.push(m);
            }
            prev_hyphen = true;
        } else {
            collapsed.push(m);
            prev_hyphen = false;
        }
        i = i + 1;
    }
    assert(mapped.take(cs@.len() as int) =~= mapped);
    let ghost col = collapsed@;
    let mut a: usize = 0;
    while a < collapsed.len() && collapsed[a] == '-'
        invariant
            a <= collapsed@.len(),
            forall|k: int| 0 <= k < a ==> collapsed@[k] == '-',
        decreases collapsed@.len() - a,
    {
        a = a + 1;
    }
    proof {
        lemma_trim_start_suffix(col, a as int);
    }
    let ghost rest = col.subrange(a as int, col.len() as int);
    assert(a == col.len() || rest[0] != '-');
    assert(trim_start_hyphens(rest) == rest);
    let mut b: usize = collapsed.len();
    while b > a && collapsed[b - 1] == '-'
        invariant
            a <= b <= collapsed@.len(),
            forall|k: int| b <= k < collapsed@.len() ==> collapsed@[k] == '-',
        decreases b,
    {
        b = b - 1;
    }
    proof {
        let rb = rest.subrange(0, b - a);
        assert forall|k: int| b - a <= k < rest.len() implies rest[k] == '-' by {
            assert(rest[k] == col[k + a]);
        }
        lemma_trim_end_prefix(rest, b - a);
        assert(rb =~= col.subrange(a as int, b as int));
        assert(rb.len() == 0 || rb.last() != '-');
        assert(trim_end_hyphens(rb) == rb);
    }
    let slice = slice_subrange(collapsed.as_slice(), a, b);
    string_from_chars(slice)
}

/// The ASCII lowercase form of a character.
pub open spec fn ascii_lower(c: char) -> char {
    if 'A' <= c && c <= 'Z' {
        ((c as u32) + 32) as char
    } else {
        c
    }
}

/// Whether a character is an ASCII letter or digit.
pub open spec fn ascii_alnum(c: char) -> bool {
    ('a' <= c && c <= 'z') || ('A' <= c && c <= 'Z') || ('0' <= c && c <= '9')
}

/// A purpose that is a slug up to case: ASCII letters, digits and hyphens,
/// with no hyphen at either end or next to another hyphen.
pub open spec fn plain_purpose(p: Seq<char>) -> bool {
    &&& forall|i: int| 0 <= i < p.len() ==> ascii_alnum(#[trigger] p[i]) || p[i] == '-'
    &&& p.len() > 0 ==> p[0] != '-' && p.last() != '-'
    &&& forall|i: int| 0 <= i < p.len() - 1 ==> !(#[trigger] p[i] == '-' && p[i + 1] == '-')
}

/// Text without two hyphens in a row is left as it is by collapsing.
proof fn lemma_collapse_keeps(s: Seq<char>)
    requires
        forall|i: int| 0 <= i < s.len() - 1 ==> !(#[trigger] s[i] == '-' && s[i + 1] == '-'),
    ensures
        collapse_hyphens(s) == s,
    decreases s.len(),
{
    if s.len() > 0 {
        let d = s.drop_last();
        assert forall|i: int| 0 <= i < d.len() - 1 implies !(#[trigger] d[i] == '-' && d[i + 1] == '-') by {
            assert(d[i] == s[i] && d[i + 1] == s[i + 1]);
        }
        lemma_collapse_keeps(d);
        if s.len() >= 2 {
            assert(!(s[s.len() - 2] == '-' && s[s.len() - 1] == '-'));
        }
        assert(d.push(s.last()) =~= s);
    }
}

/// A purpose made of ASCII letters, digits and single inner hyphens keeps
/// every character in its slug, letters lowercased: digits and hyphens stay,
/// and nothing is dropped or added.
pub proof fn law_plain_purpose_slug(p: Seq<char>)
    requires
        plain_purpose(p),
    ensures
        sanitized(p) == p.map_values(|c: char| ascii_lower(c)),
        sanitized(p).len() == p.len(),
{
    let q = p.map_values(|c: char| ascii_lower(c));
    let m = p.map_values(|c: char| slug_char(c));
    assert forall|i: int| 0 <= i < p.len() implies m[i] == q[i] && (q[i] == '-' <==> p[i] == '-') by {
        assert(ascii_alnum(p[i]) || p[i] == '-');
    }
    assert(m =~= q);
    assert forall|i: int| 0 <= i < q.len() - 1 implies !(#[trigger] q[i] == '-' && q[i + 1] == '-') by {
        assert(q[i] == '-' <==> p[i] == '-');
        assert(q[i + 1] == '-' <==> p[i + 1] == '-');
        assert(!(p[i] == '-' && p[i + 1] == '-'));
    }
    lemma_collapse_keeps(q);
    if q.len() > 0 {
        assert(q[0] != '-');
        assert(q.last() == q[q.len() - 1]);
        assert(q[q.len() - 1] != '-');
    }
    assert(trim_start_hyphens(q) == q);
    assert(trim_end_hyphens(q) == q);
}

/// The characters of a text other than hyphens, in order.
pub open spec fn drop_hyphens(s: Seq<char>) -> Seq<char>
    decreases s.len(),
{
    if s.len() == 0 {
        Seq::empty()
    } else if s.last() == '-' {
        drop_hyphens(s.drop_last())
    } else {
        drop_hyphens(s.drop_last()).push(s.last())
    }
}

/// The ASCII letters and digits of a text, lowercased, in order.
pub open spec fn alnum_lower(s: Seq<char>) -> Seq<char>
    decreases s.len(),
{
    if s.len() == 0 {
        Seq::empty()
    } else if ascii_alnum(s.last()) {
        alnum_lower(s.drop_last()).push(ascii_lower(s.last()))
    } else {
        alnum_lower(s.drop_last())
    }
}

proof fn lemma_drop_hyphens_first(s: Seq<char>)
    requires
        s.len() > 0,
    ensures
        drop_hyphens(s) == (if s[0] == '-' {
            Seq::empty()
        } else {
            seq![s[0]]
        }) + drop_hyphens(s.drop_first()),
    decreases s.len(),
{
    if s.len() == 1 {
        assert(s.drop_first() =~= Seq::<char>::empty());
        assert(s.drop_last() =~= Seq::<char>::empty());
    } else {
        lemma_drop_hyphens_first(s.drop_last());
        assert(s.drop_last().drop_first() =~= s.drop_first().drop_last());
        assert(s.drop_first().last() == s.last());
        assert(s.drop_last()[0] == s[0]);
        let head = if s[0] == '-' {
            Seq::<char>::empty()
        } else {
            seq![s[0]]
        };
        if s.last() != '-' {
            assert((head + drop_hyphens(s.drop_first().drop_last())).push(s.last()) =~= head + drop_hyphens(
                s.drop_first().drop_last(),
            ).push(s.last()));
        }
    }
}

proof fn lemma_drop_hyphens_collapse(s: Seq<char>)
    ensures
        drop_hyphens(collapse_hyphens(s)) == drop_hyphens(s),
    decreases s.len(),
{
    if s.len() > 0 {
        lemma_drop_hyphens_collapse(s.drop_last());
        let p = collapse_hyphens(s.drop_last());
        if !(s.last() == '-' && s.len() >= 2 && s[s.len() - 2] == '-') {
            assert(p.push(s.last()).drop_last() =~= p);
        }
    }
}

proof fn lemma_drop_hyphens_trim_start(s: Seq<char>)
    ensures
        drop_hyphens(trim_start_hyphens(s)) == drop_hyphens(s),
    decreases s.len(),
{
    if s.len() > 0 && s[0] == '-' {
        lemma_drop_hyphens_trim_start(s.drop_first());
        lemma_drop_hyphens_first(s);
        assert(Seq::<char>::empty() + drop_hyphens(s.drop_first()) =~= drop_hyphens(s.drop_first()));
    }
}

proof fn lemma_drop_hyphens_trim_end(s: Seq<char>)
    ensures
        drop_hyphens(trim_end_hyphens(s)) == drop_hyphens(s),
    decreases s.len(),
{
    if s.len() > 0 && s.last() == '-' {
        lemma_drop_hyphens_trim_end(s.drop_last());
    }
}

proof fn lemma_drop_hyphens_mapped(p: Seq<char>)
    ensures
        drop_hyphens(p.map_values(|c: char| slug_char(c))) == alnum_lower(p),
    decreases p.len(),
{
    if p.len() > 0 {
        let m = p.map_values(|c: char| slug_char(c));
        lemma_drop_hyphens_mapped(p.drop_last());
        assert(m.drop_last() =~= p.drop_last().map_values(|c: char| slug_char(c)));
        assert(m.last() == slug_char(p.last()));
    }
}

/// The slug of any purpose keeps exactly the ASCII letters and digits of the
/// purpose, lowercased and in order: what is not a hyphen in the slug is
/// that sequence.
pub proof fn law_slug_keeps_alphanumerics(p: Seq<char>)
    ensures
        drop_hyphens(sanitized(p)) == alnum_lower(p),
{
    let m = p.map_values(|c: char| slug_char(c));
    let c = collapse_hyphens(m);
    lemma_drop_hyphens_mapped(p);
    lemma_drop_hyphens_collapse(m);
    lemma_drop_hyphens_trim_start(c);
    lemma_drop_hyphens_trim_end(trim_start_hyphens(c));
}

/// Whether a text is lowercase ASCII letters, digits and hyphens, with no
/// hyphen at either end or next to another hyphen.
pub open spec fn slug_shaped(r: Seq<char>) -> bool {
    &&& forall|i: int|
        0 <= i < r.len() ==> ('a' <= #[trigger] r[i] && r[i] <= 'z') || ('0' <= r[i] && r[i] <= '9') || r[i] == '-'
    &&& r.len() > 0 ==> r[0] != '-' && r[r.len() - 1] != '-'
    &&& forall|i: int| 0 <= i < r.len() - 1 ==> !(#[trigger] r[i] == '-' && r[i + 1] == '-')
}

/// Whether every character of a text is a lowercase ASCII letter, a digit or
/// a hyphen.
spec fn slug_chars(r: Seq<char>) -> bool {
    forall|i: int| 0 <= i < r.len() ==> ('a' <= #[trigger] r[i] && r[i] <= 'z') || ('0' <= r[i] && r[i] <= '9') || r[i] == '-'
}

/// Whether a text has no two hyphens in a row.
spec fn no_double_hyphen(r: Seq<char>) -> bool {
    forall|i: int| 0 <= i < r.len() - 1 ==> !(#[trigger] r[i] == '-' && r[i + 1] == '-')
}

/// Collapsing keeps the last character, keeps the character kinds, and
/// leaves no two hyphens in a row.
proof fn lemma_collapse_shape(s: Seq<char>)
    requires
        slug_chars(s),
    ensures
        s.len() > 0 ==> collapse_hyphens(s).len() > 0 && collapse_hyphens(s).last() == s.last(),
        slug_chars(collapse_hyphens(s)),
        no_double_hyphen(collapse_hyphens(s)),
    decreases s.len(),
{
    if s.len() > 0 {
        let d = s.drop_last();
        assert forall|i: int| 0 <= i < d.len() implies ('a' <= #[trigger] d[i] && d[i] <= 'z') || ('0' <= d[i] && d[i]
            <= '9') || d[i] == '-' by {
            assert(d[i] == s[i]);
        }
        lemma_collapse_shape(d);
        let p = collapse_hyphens(d);
        if !(s.last() == '-' && s.len() >= 2 && s[s.len() - 2] == '-') {
            let q = p.push(s.last());
            assert(s.last() == s[s.len() - 1]);
            assert forall|i: int| 0 <= i < q.len() implies ('a' <= #[trigger] q[i] && q[i] <= 'z') || ('0' <= q[i] && q[i]
                <= '9') || q[i] == '-' by {
                if i < p.len() {
                    assert(q[i] == p[i]);
                }
            }
            assert forall|i: int| 0 <= i < q.len() - 1 implies !(#[trigger] q[i] == '-' && q[i + 1] == '-') by {
                assert(q[i] == p[i]);
                if i + 1 < p.len() {
                    assert(q[i + 1] == p[i + 1]);
                } else {
                    assert(d.last() == s[s.len() - 2]);
                    assert(p.last() == p[p.len() - 1]);
                }
            }
        } else {
            assert(d.last() == s[s.len() - 2]);
        }
    }
}

/// Trimming hyphens at the start leaves a suffix that does not start with a
/// hyphen.
proof fn lemma_trim_start_shape(s: Seq<char>)
    ensures
        exists|a: int| 0 <= a <= s.len() && trim_start_hyphens(s) == s.subrange(a, s.len() as int),
        trim_start_hyphens(s).len() > 0 ==> trim_start_hyphens(s)[0] != '-',
    decreases s.len(),
{
    if s.len() > 0 && s[0] == '-' {
        lemma_trim_start_shape(s.drop_first());
        let t = s.drop_first();
        let a = choose|a: int| 0 <= a <= t.len() && trim_start_hyphens(t) == t.subrange(a, t.len() as int);
        assert(t.subrange(a, t.len() as int) =~= s.subrange(a + 1, s.len() as int));
    } else {
        assert(s.subrange(0, s.len() as int) =~= s);
    }
}

/// Trimming hyphens at the end leaves a prefix that does not end with a
/// hyphen, and keeps a first character that is not a hyphen.
proof fn lemma_trim_end_shape(s: Seq<char>)
    ensures
        exists|b: int| 0 <= b <= s.len() && trim_end_hyphens(s) == s.subrange(0, b),
        trim_end_hyphens(s).len() > 0 ==> trim_end_hyphens(s).last() != '-',
        s.len() > 0 && s[0] != '-' ==> trim_end_hyphens(s).len() > 0,
    decreases s.len(),
{
    if s.len() > 0 && s.last() == '-' {
        lemma_trim_end_shape(s.drop_last());
        let t = s.drop_last();
        let b = choose|b: int| 0 <= b <= t.len() && trim_end_hyphens(t) == t.subrange(0, b);
        assert(t.subrange(0, b) =~= s.subrange(0, b));
        if s.len() > 0 && s[0] != '-' && s.len() == 1 {
            assert(s.last() == s[0]);
        }
        if s.len() > 1 {
            assert(t[0] == s[0]);
        }
    } else {
        assert(s.subrange(0, s.len() as int) =~= s);
    }
}

/// The slug of any purpose is made of lowercase ASCII letters, digits and
/// hyphens, with no hyphen at either end and never two hyphens in a row.
pub proof fn law_slug_shape(p: Seq<char>)
    ensures
        slug_shaped(sanitized(p)),
{
    let m = p.map_values(|c: char| slug_char(c));
    assert forall|i: int| 0 <= i < m.len() implies ('a' <= #[trigger] m[i] && m[i] <= 'z') || ('0' <= m[i] && m[i]
        <= '9') || m[i] == '-' by {
        assert(m[i] == slug_char(p[i]));
    }
    lemma_collapse_shape(m);
    let c = collapse_hyphens(m);
    lemma_trim_start_shape(c);
    let t = trim_start_hyphens(c);
    let a = choose|a: int| 0 <= a <= c.len() && t == c.subrange(a, c.len() as int);
    lemma_trim_end_shape(t);
    let r = trim_end_hyphens(t);
    let b = choose|b: int| 0 <= b <= t.len() && r == t.subrange(0, b);
    assert forall|i: int| 0 <= i < r.len() implies r[i] == c[a + i] by {
        assert(r[i] == t[i]);
        assert(t[i] == c[a + i]);
    }
    assert forall|i: int| 0 <= i < r.len() implies ('a' <= #[trigger] r[i] && r[i] <= 'z') || ('0' <= r[i] && r[i]
        <= '9') || r[i] == '-' by {
        assert(r[i] == c[a + i]);
    }
    assert forall|i: int| 0 <= i < r.len() - 1 implies !(#[trigger] r[i] == '-' && r[i + 1] == '-') by {
        assert(r[i] == c[a + i]);
        assert(r[i + 1] == c[a + i + 1]);
    }
    if r.len() > 0 {
        assert(t.len() > 0);
        assert(r[0] == t[0]);
        assert(r.last() == r[r.len() - 1]);
    }
}

/// `{creator_id}/{sanitized purpose}/{seq}`.
pub open spec fn agent_id_of(creator_id: Seq<char>, purpose: Seq<char>, seq: i64) -> Seq<char> {
    creator_id + "/"@ + sanitized(purpose) + "/"@ + int_text(seq as int)
}

/// Derives an agent ID that encodes the creation relationship:
/// `{creator_id}/{sanitized_purpose}/{seq}`.
pub fn derive_agent_id(creator_id: &str, purpose: &str, seq: i64) -> (r: String)
    ensures
        r@ == agent_id_of(creator_id@, purpose@, seq),
{
    let sanitized_text = sanitize_purpose(purpose);
    let mut out = String::new();
    push_str(&mut out, creator_id);
    push_str(&mut out, "/");
    push_str(&mut out, sanitized_text.as_str());
    push_str(&mut out, "/");
    push_i64(&mut out, seq);
    proof {
        assert(out@ =~= agent_id_of(creator_id@, purpose@, seq));
    }
    out
}

/// Builds the creation lineage of a new actor: always `[creator_id]`, since
/// only humans create agents (an agent creator is refused before this is
/// called, and still yields `[creator_id]`).
pub fn build_lineage(creator_type: &ActorType, creator_id: &str, _creator_lineage: &[String]) -> (r:
    Vec<String>)
    ensures
        r@.len() == 1,
        r@[0]@ == creator_id@,
{
    let mut v: Vec<String> = Vec::new();
    match creator_type {
        ActorType::Human => v.push(String::from_str(creator_id)),
        ActorType::Agent => v.push(String::from_str(creator_id)),
    }
    v
}

/// The JSON form of a writable target: `{actions, target}`.
pub open spec fn target_view(t: WritableTarget) -> JsonView {
    JsonView::Object(seq![("actions"@, strings_view(t.actions@)), ("target"@, JsonView::String(t.target@))])
}

/// The JSON forms of a list of writable targets.
pub open spec fn targets_view(ts: Seq<WritableTarget>) -> JsonView {
    JsonView::Array(Seq::new(ts.len(), |i: int| target_view(ts[i])))
}

/// A list of writable targets as JSON.
pub fn targets_json(ts: &[WritableTarget]) -> (r: JsonValue)
    ensures
        r@ == targets_view(ts@),
{
    let mut items: Vec<JsonValue> = Vec::new();
    let mut i: usize = 0;
    while i < ts.len()
        invariant
            i <= ts@.len(),
            items@.len() == i,
            forall|k: int| 0 <= k < i ==> (#[trigger] items@[k])@ == target_view(ts@[k]),
        decreases ts@.len() - i,
    {
        let t = &ts[i];
        let o = crate::json::json_object2(
            entry("actions", json_strings(t.actions.as_slice())),
            entry("target", json_str(t.target.as_str())),
        );
        items.push(o);
        i = i + 1;
    }
    proof {
        crate::json::lemma_items_view_len(items@, items@.len());
        assert(crate::json::items_view(items@, items@.len()) =~= targets_view(ts@)->Array_0);
    }
    JsonValue::Array(items)
}

impl ActorRecord {
    /// The JSON form of an actor record, keys in codepoint order.
    pub open spec fn spec_json(&self) -> JsonView {
        JsonView::Object(
            seq![
                ("actor_id"@, JsonView::String(self.actor_id@)),
                ("actor_type"@, JsonView::String(self.actor_type.spec_as_str())),
                ("created_at"@, JsonView::String(self.created_at@)),
                ("creator_id"@, opt_str_view(self.creator_id)),
                ("energy_share"@, JsonView::Number(crate::json::number_view(self.energy_share))),
                ("lineage"@, strings_view(self.lineage@)),
                ("purpose"@, opt_str_view(self.purpose)),
                ("reduction_policy"@, JsonView::String(self.reduction_policy@)),
                ("status"@, JsonView::String(self.status.spec_as_str())),
                ("updated_at"@, JsonView::String(self.updated_at@)),
                ("writable_targets"@, targets_view(self.writable_targets@)),
            ],
        )
    }

    /// The JSON form of an actor record.
    pub fn to_json(&self) -> (r: JsonValue)
        ensures
            r@ == self.spec_json(),
    {
        let share = match &self.energy_share {
            JsonNumber::PosInt(u) => JsonNumber::PosInt(*u),
            JsonNumber::NegInt(n) => JsonNumber::NegInt(*n),
            JsonNumber::Float(t) => JsonNumber::Float(t.clone()),
        };
        let es = vec![
            entry("actor_id", json_str(self.actor_id.as_str())),
            entry("actor_type", json_str(self.actor_type.as_str())),
            entry("created_at", json_str(self.created_at.as_str())),
            entry("creator_id", json_opt_str(&self.creator_id)),
            entry("energy_share", JsonValue::Number(share)),
            entry("lineage", json_strings(self.lineage.as_slice())),
            entry("purpose", json_opt_str(&self.purpose)),
            entry("reduction_policy", json_str(self.reduction_policy.as_str())),
            entry("status", json_str(self.status.as_str())),
            entry("updated_at", json_str(self.updated_at.as_str())),
            entry("writable_targets", targets_json(self.writable_targets.as_slice())),
        ];
        let r = json_object(es);
        proof {
            assert(Seq::new(es@.len(), |i: int| (es@[i].0@, es@[i].1@)) =~= self.spec_json()->Object_0);
        }
        r
    }
}

} // verus!

