//! Header and body rewriting for the HTTP reverse proxy: which header rules
//! apply, when a body is skipped, how its kind is recognised, and what JSON
//! and form rules do to it.

use crate::error::AppError;
use crate::headers::{str_eq, HeaderMap};
use crate::json::{depth_within, is_json, json_doc, json_printed, json_text, parse_json, set_json_path, set_path, sorted_tree, JsonValue, JsonView};
use crate::models::{BodyRewriteRule, HeaderRule};
use crate::text::{string_from_utf8_lossy, utf8_lossy, 
    contains_seq, contains_str, from_chars, join, join_with, lower_seq, str_bytes, to_chars,
    to_lower, trim, trim_ws, views,
};
use vstd::prelude::*;
use vstd::utf8::{decode_utf8, encode_utf8, valid_utf8};

verus! {

// ---------------------------------------------------------------------------
// Header rules
// ---------------------------------------------------------------------------

/// What one rule does to the headers in a phase: an enabled rule of that
/// phase sets (when it has a value) or removes its lower-cased name; any
/// other action does nothing.
pub open spec fn header_step(m: Map<Seq<char>, Seq<char>>, rule: HeaderRule, phase: Seq<char>) -> Map<Seq<char>, Seq<char>> {
    if rule.enabled && rule.phase@ == phase {
        let name = lower_seq(rule.name@);
        if rule.action@ == "set"@ {
            match rule.value {
                Some(v) => m.insert(name, v@),
                None => m,
            }
        } else if rule.action@ == "remove"@ {
            m.remove(name)
        } else {
            m
        }
    } else {
        m
    }
}

/// The headers after the rules, applied in order.
pub open spec fn header_rules_applied(m: Map<Seq<char>, Seq<char>>, rules: Seq<HeaderRule>, phase: Seq<char>) -> Map<Seq<char>, Seq<char>>
    decreases rules.len(),
{
    if rules.len() == 0 {
        m
    } else {
        header_step(header_rules_applied(m, rules.drop_last(), phase), rules.last(), phase)
    }
}

/// Applies the enabled header rules of a phase, in order.
pub fn apply_header_rules(headers: &mut HeaderMap, rules: &[HeaderRule], phase: &str)
    ensures
        final(headers).map() == header_rules_applied(old(headers).map(), rules@, phase@),
{
    let ghost start = headers.map();
    let n = rules.len();
    let mut i: usize = 0;
    while i < n
        invariant
            n == rules@.len(),
            i <= n,
            headers.map() == header_rules_applied(start, rules@.take(i as int), phase@),
        decreases n - i,
    {
        let rule = &rules[i];
        proof {
            assert(rules@.take(i + 1).drop_last() =~= rules@.take(i as int));
            assert(rules@.take(i + 1).last() == rules@[i as int]);
        }
        if rule.enabled && str_eq(rule.phase.as_str(), phase) {
            let name_chars = to_chars(rule.name.as_str());
            let lowered = to_lower(name_chars.as_slice());
            let name = from_chars(lowered.as_slice());
            if str_eq(rule.action.as_str(), "set") {
                match &rule.value {
                    Some(v) => {
                        headers.insert(name, v.clone());
                    },
                    None => {},
                }
            } else if str_eq(rule.action.as_str(), "remove") {
                headers.remove(name.as_str());
            }
        }
        i = i + 1;
    }
    assert(rules@.take(n as int) =~= rules@);
}

/// The last rule has the last word on its header: an enabled rule of the
/// phase that sets a value leaves exactly that value under the rule's
/// lower-cased name, one that removes leaves no such header, and every
/// other header is as the earlier rules left it. A rule that is disabled or
/// of another phase changes nothing.
pub proof fn law_header_rule_last_word(m: Map<Seq<char>, Seq<char>>, rules: Seq<HeaderRule>, rule: HeaderRule, phase: Seq<char>)
    ensures
        ({
            let before = header_rules_applied(m, rules, phase);
            let after = header_rules_applied(m, rules.push(rule), phase);
            let key = lower_seq(rule.name@);
            &&& (rule.enabled && rule.phase@ == phase && rule.action@ == "set"@ && rule.value is Some) ==> (
            after.dom().contains(key) && after[key] == rule.value->0@)
            &&& (rule.enabled && rule.phase@ == phase && rule.action@ == "remove"@) ==> !after.dom().contains(key)
            &&& forall|k: Seq<char>| k != key ==> #[trigger] agree_at(after, before, k)
            &&& (!rule.enabled || rule.phase@ != phase) ==> after == before
        }),
{
    let before = header_rules_applied(m, rules, phase);
    assert(rules.push(rule).drop_last() =~= rules);
    assert(rules.push(rule).last() == rule);
    assert(header_rules_applied(m, rules.push(rule), phase) == header_step(before, rule, phase));
    reveal_strlit("set");
    reveal_strlit("remove");
    assert("set"@.len() != "remove"@.len());
}

/// Whether a rule sets or removes the header `k` in a phase.
pub open spec fn rule_touches(rule: HeaderRule, phase: Seq<char>, k: Seq<char>) -> bool {
    &&& rule.enabled && rule.phase@ == phase && lower_seq(rule.name@) == k
    &&& ((rule.action@ == "set"@ && rule.value is Some) || rule.action@ == "remove"@)
}

/// Whether some rule sets or removes the header `k` in a phase.
pub open spec fn rules_touch(rules: Seq<HeaderRule>, phase: Seq<char>, k: Seq<char>) -> bool
    decreases rules.len(),
{
    rules.len() > 0 && (rule_touches(rules.last(), phase, k) || rules_touch(rules.drop_last(), phase, k))
}

/// Whether two header tables agree on the header `k`.
pub open spec fn agree_at(a: Map<Seq<char>, Seq<char>>, b: Map<Seq<char>, Seq<char>>, k: Seq<char>) -> bool {
    &&& a.dom().contains(k) == b.dom().contains(k)
    &&& a.dom().contains(k) ==> a[k] == b[k]
}

/// A header that no rule touches keeps what it had; one that some rule
/// touches ends the same whatever the table was before.
proof fn lemma_rules_at(
    m1: Map<Seq<char>, Seq<char>>,
    m2: Map<Seq<char>, Seq<char>>,
    rules: Seq<HeaderRule>,
    phase: Seq<char>,
    k: Seq<char>,
)
    ensures
        !rules_touch(rules, phase, k) ==> agree_at(header_rules_applied(m1, rules, phase), m1, k),
        rules_touch(rules, phase, k) ==> agree_at(
            header_rules_applied(m1, rules, phase),
            header_rules_applied(m2, rules, phase),
            k,
        ),
    decreases rules.len(),
{
    if rules.len() > 0 {
        let init = rules.drop_last();
        let rule = rules.last();
        lemma_rules_at(m1, m2, init, phase, k);
        let a = header_rules_applied(m1, init, phase);
        let b = header_rules_applied(m2, init, phase);
        assert(header_rules_applied(m1, rules, phase) == header_step(a, rule, phase));
        assert(header_rules_applied(m2, rules, phase) == header_step(b, rule, phase));
        reveal_strlit("set");
        reveal_strlit("remove");
        assert("set"@.len() != "remove"@.len());
        if !rule_touches(rule, phase, k) {
            assert(agree_at(header_step(a, rule, phase), a, k));
            assert(agree_at(header_step(b, rule, phase), b, k));
        }
    }
}

/// Applying the same header rules twice, for the same phase, gives what
/// applying them once gives: each header ends as the last rule that sets
/// or removes it leaves it, or as it was when no rule touches it.
pub proof fn law_header_rules_idempotent(m: Map<Seq<char>, Seq<char>>, rules: Seq<HeaderRule>, phase: Seq<char>)
    ensures
        header_rules_applied(header_rules_applied(m, rules, phase), rules, phase) == header_rules_applied(m, rules, phase),
{
    let once = header_rules_applied(m, rules, phase);
    let twice = header_rules_applied(once, rules, phase);
    assert forall|k: Seq<char>| #![trigger twice.dom().contains(k)] #![trigger once.dom().contains(k)]
        agree_at(twice, once, k) by {
        lemma_rules_at(once, m, rules, phase, k);
    }
    assert(twice.dom() =~= once.dom());
    assert forall|k: Seq<char>| #[trigger] twice.dom().contains(k) implies twice[k] == once[k] by {
        lemma_rules_at(once, m, rules, phase, k);
    }
    assert(twice =~= once);
}

// ---------------------------------------------------------------------------
// Outcomes
// ---------------------------------------------------------------------------

/// The result of rewriting a body.
#[derive(Debug, Clone, PartialEq, Eq)]
pub struct RewriteOutcome {
    /// Whether the body was rewritten.
    pub changed: bool,
    /// The new body; empty when unchanged, the caller keeps the body it had.
    pub body: Vec<u8>,
    /// Why a rewrite was skipped or partly missed, for a warning log.
    pub warning: Option<String>,
}

/// The view of an optional string.
pub open spec fn opt_view(o: Option<String>) -> Option<Seq<char>> {
    match o {
        Some(s) => Some(s@),
        None => None,
    }
}

impl RewriteOutcome {
    /// The outcome as (changed, body, warning).
    pub open spec fn view(&self) -> (bool, Seq<u8>, Option<Seq<char>>) {
        (self.changed, self.body@, opt_view(self.warning))
    }

    /// A rewritten body without warning.
    pub fn changed(body: Vec<u8>) -> (r: RewriteOutcome)
        ensures
            r.view() == (true, body@, None::<Seq<char>>),
    {
        RewriteOutcome { changed: true, body, warning: None }
    }

    /// A rewritten body with an optional warning.
    pub fn changed_with_warning(body: Vec<u8>, warning: Option<String>) -> (r: RewriteOutcome)
        ensures
            r.view() == (true, body@, opt_view(warning)),
    {
        RewriteOutcome { changed: true, body, warning }
    }

    /// Nothing to do.
    pub fn unchanged() -> (r: RewriteOutcome)
        ensures
            r.view() == (false, Seq::<u8>::empty(), None::<Seq<char>>),
    {
        let r = RewriteOutcome { changed: false, body: Vec::new(), warning: None };
        assert(r.body@ =~= Seq::<u8>::empty());
        r
    }

    /// Skipped, with the reason.
    pub fn skipped(reason: &str) -> (r: RewriteOutcome)
        ensures
            r.view() == (false, Seq::<u8>::empty(), Some(reason@)),
    {
        let r = RewriteOutcome {
            changed: false,
            body: Vec::new(),
            warning: Some(String::from_str(reason)),
        };
        assert(r.body@ =~= Seq::<u8>::empty());
        r
    }
}

// ---------------------------------------------------------------------------
// Rule selection
// ---------------------------------------------------------------------------

/// The rules that satisfy `f`, in order.
pub open spec fn select(rules: Seq<BodyRewriteRule>, f: spec_fn(BodyRewriteRule) -> bool) -> Seq<BodyRewriteRule>
    decreases rules.len(),
{
    if rules.len() == 0 {
        Seq::empty()
    } else if f(rules.last()) {
        select(rules.drop_last(), f).push(rules.last())
    } else {
        select(rules.drop_last(), f)
    }
}

/// An enabled rule that a JSON body uses (`auto` or `json`).
pub open spec fn is_json_rule(rule: BodyRewriteRule) -> bool {
    rule.enabled && (rule.body_type@ == "auto"@ || rule.body_type@ == "json"@)
}

/// An enabled rule that a form body uses (`auto` or `form`).
pub open spec fn is_form_rule(rule: BodyRewriteRule) -> bool {
    rule.enabled && (rule.body_type@ == "auto"@ || rule.body_type@ == "form"@)
}

/// Whether some enabled rule has the body type.
pub open spec fn some_enabled_of_type(rules: Seq<BodyRewriteRule>, t: Seq<char>) -> bool {
    exists|i: int| 0 <= i < rules.len() && (#[trigger] rules[i]).enabled && rules[i].body_type@ == t
}

/// Whether some rule is enabled.
pub open spec fn some_enabled(rules: Seq<BodyRewriteRule>) -> bool {
    exists|i: int| 0 <= i < rules.len() && (#[trigger] rules[i]).enabled
}

fn has_enabled(rules: &[BodyRewriteRule]) -> (r: bool)
    ensures
        r == some_enabled(rules@),
{
    let n = rules.len();
    let mut i: usize = 0;
    while i < n
        invariant
            n == rules@.len(),
            i <= n,
            forall|j: int| 0 <= j < i ==> !(#[trigger] rules@[j]).enabled,
        decreases n - i,
    {
        if rules[i].enabled {
            return true;
        }
        i = i + 1;
    }
    false
}

/// What is selected from a prefix is a prefix of what is selected from the
/// whole.
proof fn lemma_select_prefix(rules: Seq<BodyRewriteRule>, k: int, f: spec_fn(BodyRewriteRule) -> bool)
    requires
        0 <= k <= rules.len(),
    ensures
        select(rules.take(k), f).len() <= select(rules, f).len(),
        select(rules, f).take(select(rules.take(k), f).len() as int) == select(rules.take(k), f),
    decreases rules.len() - k,
{
    if k == rules.len() {
        assert(rules.take(k) =~= rules);
        assert(select(rules, f).take(select(rules, f).len() as int) =~= select(rules, f));
    } else {
        lemma_select_prefix(rules.drop_last(), k, f);
        assert(rules.drop_last().take(k) =~= rules.take(k));
        let a = select(rules.take(k), f);
        let b = select(rules.drop_last(), f);
        if f(rules.last()) {
            assert(select(rules, f) == b.push(rules.last()));
            assert(b.push(rules.last()).take(a.len() as int) =~= b.take(a.len() as int));
        }
    }
}

/// Selecting from the whole sequence after selecting from every prefix.
proof fn lemma_select_all(rules: Seq<BodyRewriteRule>, f: spec_fn(BodyRewriteRule) -> bool)
    ensures
        select(rules.take(rules.len() as int), f) == select(rules, f),
{
    assert(rules.take(rules.len() as int) =~= rules);
}

fn some_enabled_of(rules: &[BodyRewriteRule], t: &str) -> (r: bool)
    ensures
        r == some_enabled_of_type(rules@, t@),
{
    let n = rules.len();
    let mut i: usize = 0;
    while i < n
        invariant
            n == rules@.len(),
            i <= n,
            forall|j: int| 0 <= j < i ==> !((#[trigger] rules@[j]).enabled && rules@[j].body_type@ == t@),
        decreases n - i,
    {
        if rules[i].enabled && str_eq(rules[i].body_type.as_str(), t) {
            return true;
        }
        i = i + 1;
    }
    false
}

// ---------------------------------------------------------------------------
// Body kind
// ---------------------------------------------------------------------------

/// How a body is read.
#[derive(Debug, Clone, Copy, PartialEq, Eq)]
pub enum BodyKind {
    Json,
    Form,
    Unknown,
}

/// `u8::is_ascii_whitespace`: space, tab, line feed, form feed, carriage return.
pub open spec fn ascii_ws(b: u8) -> bool {
    b == 0x20 || b == 0x09 || b == 0x0a || b == 0x0c || b == 0x0d
}

/// The first byte that is not ASCII whitespace is `{` or `[`.
pub open spec fn looks_json(body: Seq<u8>) -> bool {
    exists|i: int|
        0 <= i < body.len() && !ascii_ws(#[trigger] body[i]) && (forall|j: int| 0 <= j < i ==> ascii_ws(body[j]))
            && (body[i] == 0x7b || body[i] == 0x5b)
}

/// Whether a body looks like JSON.
pub fn looks_like_json(body: &[u8]) -> (r: bool)
    ensures
        r == looks_json(body@),
{
    let n = body.len();
    let mut i: usize = 0;
    while i < n
        invariant
            n == body@.len(),
            i <= n,
            forall|j: int| 0 <= j < i ==> ascii_ws(body@[j]),
        decreases n - i,
    {
        let b = body[i];
        if !(b == 0x20 || b == 0x09 || b == 0x0a || b == 0x0c || b == 0x0d) {
            proof {
                if !(b == 0x7b || b == 0x5b) {
                    assert forall|k: int|
                        0 <= k < body@.len() && !ascii_ws(#[trigger] body@[k]) && (forall|j: int| 0 <= j < k ==> ascii_ws(body@[j]))
                        implies !(body@[k] == 0x7b || body@[k] == 0x5b) by {
                        if k < i {
                        } else if k > i {
                            assert(ascii_ws(body@[i as int]));
                        }
                    }
                }
            }
            return b == 0x7b || b == 0x5b;
        }
        i = i + 1;
    }
    false
}

/// A JSON content type.
pub open spec fn json_content_type(ct: Seq<char>) -> bool {
    contains_seq(ct, "application/json"@) || contains_seq(ct, "text/json"@) || contains_seq(ct, "+json"@)
}

/// A form content type.
pub open spec fn form_content_type(ct: Seq<char>) -> bool {
    contains_seq(ct, "application/x-www-form-urlencoded"@)
}

/// The kind of a body under a lower-cased content type: the content type
/// decides first (a missing one defers to the body's first byte), then the
/// rules' body types.
pub open spec fn body_kind(body: Seq<u8>, ct: Seq<char>, rules: Seq<BodyRewriteRule>) -> BodyKind {
    if json_content_type(ct) || (ct.len() == 0 && looks_json(body)) {
        BodyKind::Json
    } else if form_content_type(ct) {
        BodyKind::Form
    } else if some_enabled_of_type(rules, "json"@) {
        BodyKind::Json
    } else if some_enabled_of_type(rules, "form"@) {
        BodyKind::Form
    } else {
        BodyKind::Unknown
    }
}

/// A body whose lower-cased content type names JSON (`application/json`,
/// `text/json`, or any `+json` suffix type) is a JSON body, whatever the
/// rules and the body bytes; a form content type that names no JSON is a
/// form body.
pub proof fn law_json_content_types(body: Seq<u8>, ct: Seq<char>, rules: Seq<BodyRewriteRule>)
    ensures
        (contains_seq(ct, "application/json"@) || contains_seq(ct, "text/json"@) || contains_seq(ct, "+json"@))
            ==> body_kind(body, ct, rules) == BodyKind::Json,
        (contains_seq(ct, "application/x-www-form-urlencoded"@) && !contains_seq(ct, "application/json"@)
            && !contains_seq(ct, "text/json"@) && !contains_seq(ct, "+json"@) && ct.len() > 0)
            ==> body_kind(body, ct, rules) == BodyKind::Form,
{
}

/// Recognises the kind of a body; only enabled rules count.
pub fn detect_body_kind(body: &[u8], content_type: &[char], rules: &[BodyRewriteRule]) -> (r: BodyKind)
    ensures
        r == body_kind(body@, content_type@, rules@),
{
    let is_json_ct = contains_str(content_type, "application/json") || contains_str(content_type, "text/json")
        || contains_str(content_type, "+json");
    let is_form_ct = contains_str(content_type, "application/x-www-form-urlencoded");
    if is_json_ct || (content_type.len() == 0 && looks_like_json(body)) {
        return BodyKind::Json;
    }
    if is_form_ct {
        return BodyKind::Form;
    }
    if some_enabled_of(rules, "json") {
        return BodyKind::Json;
    }
    if some_enabled_of(rules, "form") {
        return BodyKind::Form;
    }
    BodyKind::Unknown
}

// ---------------------------------------------------------------------------
// JSON bodies
// ---------------------------------------------------------------------------

/// Why a run of JSON edits stopped: a rule value that is not JSON, or the
/// message of an invalid path.
pub enum EditFailure {
    Json,
    Invalid(Seq<char>),
}

/// The warning for a rule whose path matched nothing.
pub open spec fn miss_warning(path: Seq<char>) -> Seq<char> {
    "Body 改写规则路径未命中: "@ + path
}

/// JSON rules applied in order to `doc`: `repls[i]` is rule `i`'s value as
/// parsed, `None` when it is not JSON. The result is the document, whether
/// any rule set a value, and the warnings of rules that missed.
pub open spec fn json_edits(doc: JsonView, rules: Seq<BodyRewriteRule>, repls: Seq<Option<JsonView>>) -> Result<(JsonView, bool, Seq<Seq<char>>), EditFailure>
    decreases rules.len(),
{
    if rules.len() == 0 {
        Ok((doc, false, Seq::empty()))
    } else {
        match json_edits(doc, rules.drop_last(), repls.drop_last()) {
            Err(e) => Err(e),
            Ok((t, changed, warns)) => match repls.last() {
                None => Err(EditFailure::Json),
                Some(v) => match set_path(t, rules.last().path@, v) {
                    Err(m) => Err(EditFailure::Invalid(m)),
                    Ok((t2, hit)) => if hit {
                        Ok((t2, true, warns))
                    } else {
                        Ok((t2, changed, warns.push(miss_warning(rules.last().path@))))
                    },
                },
            },
        }
    }
}

/// The warnings joined into one, if any.
pub open spec fn joined_warning(warns: Seq<Seq<char>>) -> Option<Seq<char>> {
    if warns.len() == 0 {
        None
    } else {
        Some(join(warns, "; "@))
    }
}

/// A parsed document that the library can hold: one nested fewer than
/// `usize::MAX` levels.
pub open spec fn usable_doc(o: Option<JsonView>) -> Option<JsonView> {
    match o {
        Some(d) => if depth_within(d, usize::MAX as nat) {
            Some(d)
        } else {
            None
        },
        None => None,
    }
}

/// The documents that the rules' values parse to, in order; `None` for a
/// value that is not JSON or is nested too deeply.
pub open spec fn rule_docs(rules: Seq<BodyRewriteRule>) -> Seq<Option<JsonView>> {
    Seq::new(rules.len(), |i: int| usable_doc(json_doc(encode_utf8(rules[i].value_json@))))
}

/// What a JSON body rewrite returns: the body's document edited by the
/// JSON rules in order, each setting its parsed value at its path. A body
/// or value that is not JSON is a `Json` error, and so is one nested too
/// deeply (the nesting-limit message); a path error stops the edits with
/// its `InvalidInput` message. When some rule set a value, the new body is
/// serde_json's text of the edited document; otherwise it is empty. The
/// warning joins those of the rules whose paths missed.
pub open spec fn json_rewrite_spec(r: Result<RewriteOutcome, AppError>, body: Seq<u8>, rules: Seq<BodyRewriteRule>) -> bool {
    let jr = select(rules, |x: BodyRewriteRule| is_json_rule(x));
    match usable_doc(json_doc(body)) {
        None => r matches Err(AppError::Json(m)) && (is_json(body) ==> m@ == "recursion limit exceeded"@),
        Some(d) => match json_edits(d, jr, rule_docs(jr)) {
            Err(EditFailure::Json) => r matches Err(AppError::Json(_)),
            Err(EditFailure::Invalid(m)) => r matches Err(AppError::InvalidInput(x)) && x@ == m,
            Ok((t, changed, warns)) => if changed && !depth_within(t, usize::MAX as nat) {
                r matches Err(AppError::Json(m)) && m@ == "recursion limit exceeded"@
            } else {
                r matches Ok(o) && o.changed == changed && opt_view(o.warning) == joined_warning(warns) && o.body@ == (
                if changed {
                    encode_utf8(json_printed(t))
                } else {
                    Seq::empty()
                })
            },
        },
    }
}

/// `rule_docs` is taken rule by rule.
proof fn lemma_rule_docs_push(rules: Seq<BodyRewriteRule>, x: BodyRewriteRule)
    ensures
        rule_docs(rules.push(x)) == rule_docs(rules).push(usable_doc(json_doc(encode_utf8(x.value_json@)))),
        rule_docs(rules.push(x)).drop_last() == rule_docs(rules),
{
    assert(rule_docs(rules.push(x)) =~= rule_docs(rules).push(usable_doc(json_doc(encode_utf8(x.value_json@)))));
    assert(rule_docs(rules.push(x)).drop_last() =~= rule_docs(rules));
}

/// What parsing a value gives, as `usable_doc` names it.
proof fn lemma_parse_usable(bytes: Seq<u8>, r: Result<JsonValue, AppError>)
    requires
        r is Ok <==> (json_doc(bytes) matches Some(d) && depth_within(d, usize::MAX as nat)),
        r matches Ok(t) ==> json_doc(bytes) == Some(t.tree()),
    ensures
        r matches Ok(t) ==> usable_doc(json_doc(bytes)) == Some(t.tree()),
        r is Err ==> usable_doc(json_doc(bytes)) is None,
{
}

fn rewrite_json_body(body: &[u8], rules: &[BodyRewriteRule]) -> (r: Result<RewriteOutcome, AppError>)
    ensures
        json_rewrite_spec(r, body@, rules@),
{
    let parsed = parse_json(body);
    proof {
        lemma_parse_usable(body@, parsed);
    }
    let mut value = match parsed {
        Ok(v) => v,
        Err(e) => return Err(e),
    };
    let ghost doc = value.tree();
    let ghost jf = |x: BodyRewriteRule| is_json_rule(x);
    let mut changed = false;
    let mut warnings: Vec<Vec<char>> = Vec::new();
    let n = rules.len();
    let mut i: usize = 0;
    assert(rules@.take(0) =~= Seq::<BodyRewriteRule>::empty());
    assert(views(warnings@) =~= Seq::<Seq<char>>::empty());
    assert(rule_docs(Seq::<BodyRewriteRule>::empty()) =~= Seq::<Option<JsonView>>::empty());
    while i < n
        invariant
            n == rules@.len(),
            i <= n,
            jf == (|x: BodyRewriteRule| is_json_rule(x)),
            usable_doc(json_doc(body@)) == Some(doc),
            sorted_tree(value.tree()),
            json_edits(doc, select(rules@.take(i as int), jf), rule_docs(select(rules@.take(i as int), jf))) == Ok::<
                (JsonView, bool, Seq<Seq<char>>),
                EditFailure,
            >((value.tree(), changed, views(warnings@))),
        decreases n - i,
    {
        let rule = &rules[i];
        proof {
            assert(rules@.take(i + 1).drop_last() =~= rules@.take(i as int));
            assert(rules@.take(i + 1).last() == rules@[i as int]);
        }
        let bt = rule.body_type.as_str();
        if rule.enabled && (str_eq(bt, "auto") || str_eq(bt, "json")) {
            let ghost prev = select(rules@.take(i as int), jf);
            let ghost sel = select(rules@.take(i + 1), jf);
            assert(sel == prev.push(rules@[i as int]));
            assert(sel.drop_last() =~= prev);
            assert(sel.last() == rules@[i as int]);
            proof {
                lemma_rule_docs_push(prev, rules@[i as int]);
            }
            let vbytes = str_bytes(rule.value_json.as_str());
            let rp = parse_json(vbytes.as_slice());
            proof {
                lemma_parse_usable(vbytes@, rp);
            }
            let replacement = match rp {
                Ok(t) => t,
                Err(e) => {
                    proof {
                        assert(json_edits(doc, sel, rule_docs(sel)) == Err::<(JsonView, bool, Seq<Seq<char>>), EditFailure>(EditFailure::Json));
                        lemma_select_prefix(rules@, i + 1, jf);
                        lemma_json_edits_stop(doc, select(rules@, jf), sel.len() as int);
                    }
                    return Err(e);
                },
            };
            let ghost rt = replacement.tree();
            let ghost before = value.tree();
            match set_json_path(value, rule.path.as_str(), replacement) {
                Ok((t, hit)) => {
                    proof {
                        crate::json::lemma_set_path_sorted(before, rule.path@, rt);
                    }
                    value = t;
                    if hit {
                        changed = true;
                    } else {
                        let ghost old_w = views(warnings@);
                        let lead = to_chars("Body 改写规则路径未命中: ");
                        let pc = to_chars(rule.path.as_str());
                        let w = crate::text::concat(lead.as_slice(), pc.as_slice());
                        warnings.push(w);
                        assert(views(warnings@) =~= old_w.push(miss_warning(rule.path@)));
                    }
                },
                Err(e) => {
                    proof {
                        assert(json_edits(doc, sel, rule_docs(sel)) == Err::<(JsonView, bool, Seq<Seq<char>>), EditFailure>(EditFailure::Invalid(e->InvalidInput_0@)));
                        lemma_select_prefix(rules@, i + 1, jf);
                        lemma_json_edits_stop(doc, select(rules@, jf), sel.len() as int);
                    }
                    return Err(e);
                },
            }
        }
        i = i + 1;
    }
    proof {
        lemma_select_all(rules@, jf);
    }
    let warning: Option<String> = if warnings.len() == 0 {
        None
    } else {
        let sep = to_chars("; ");
        let joined = join_with(&warnings, sep.as_slice());
        Some(from_chars(joined.as_slice()))
    };
    assert(opt_view(warning) == joined_warning(views(warnings@)));
    if changed {
        let text = match json_text(value) {
            Ok(t) => t,
            Err(e) => return Err(e),
        };
        Ok(RewriteOutcome::changed_with_warning(str_bytes(text.as_str()), warning))
    } else {
        match warning {
            Some(w) => Ok(RewriteOutcome::skipped(w.as_str())),
            None => Ok(RewriteOutcome::unchanged()),
        }
    }
}

/// Once the edits of a prefix of the rules fail, the edits of all of them
/// fail the same way.
proof fn lemma_json_edits_stop(doc: JsonView, rules: Seq<BodyRewriteRule>, k: int)
    requires
        0 <= k <= rules.len(),
        json_edits(doc, rules.take(k), rule_docs(rules.take(k))) is Err,
    ensures
        json_edits(doc, rules, rule_docs(rules)) == json_edits(doc, rules.take(k), rule_docs(rules.take(k))),
    decreases rules.len() - k,
{
    if k < rules.len() {
        let longer = rules.take(k + 1);
        assert(longer.drop_last() =~= rules.take(k));
        assert(rule_docs(longer).drop_last() =~= rule_docs(rules.take(k)));
        lemma_json_edits_stop(doc, rules, k + 1);
    } else {
        assert(rules.take(k) =~= rules);
    }
}

// ---------------------------------------------------------------------------
// Form bodies
// ---------------------------------------------------------------------------

/// Pieces of bytes between separator bytes (`[u8]::split`).
pub open spec fn split_bytes(s: Seq<u8>, sep: u8) -> Seq<Seq<u8>>
    decreases s.len(),
{
    if s.len() == 0 {
        seq![Seq::<u8>::empty()]
    } else {
        let rest = split_bytes(s.drop_first(), sep);
        if s[0] == sep {
            seq![Seq::<u8>::empty()] + rest
        } else {
            rest.update(0, seq![s[0]] + rest[0])
        }
    }
}

/// The pieces that are not empty, in order.
pub open spec fn nonempty_pieces(parts: Seq<Seq<u8>>) -> Seq<Seq<u8>>
    decreases parts.len(),
{
    if parts.len() == 0 {
        Seq::empty()
    } else if parts[0].len() == 0 {
        nonempty_pieces(parts.drop_first())
    } else {
        seq![parts[0]] + nonempty_pieces(parts.drop_first())
    }
}

/// `+` read as a space.
pub open spec fn plus_as_space(s: Seq<u8>) -> Seq<u8> {
    Seq::new(s.len(), |i: int| if s[i] == 0x2b { 0x20u8 } else { s[i] })
}

/// Lenient percent-decoding: `%` and two hex digits is a byte, anything
/// else stays as it is.
pub open spec fn percent_decode_lenient(s: Seq<u8>) -> Seq<u8>
    decreases s.len(),
{
    if s.len() == 0 {
        Seq::empty()
    } else if s.len() >= 3 && s[0] == 0x25 && crate::tool_services::hex_val(s[1]) is Some
        && crate::tool_services::hex_val(s[2]) is Some {
        seq![(crate::tool_services::hex_val(s[1])->0 * 16 + crate::tool_services::hex_val(s[2])->0) as u8]
            + percent_decode_lenient(s.skip(3))
    } else {
        seq![s[0]] + percent_decode_lenient(s.drop_first())
    }
}

/// A form name or value decoded.
pub open spec fn form_decode(s: Seq<u8>) -> Seq<char> {
    utf8_lossy(percent_decode_lenient(plus_as_space(s)))
}

/// The index of the first `=` in a field, if any.
pub open spec fn first_eq(s: Seq<u8>) -> Option<int> {
    if exists|i: int| 0 <= i < s.len() && s[i] == 0x3d && forall|j: int| 0 <= j < i ==> s[j] != 0x3d {
        Some(choose|i: int| 0 <= i < s.len() && s[i] == 0x3d && forall|j: int| 0 <= j < i ==> s[j] != 0x3d)
    } else {
        None
    }
}

/// A field split at its first `=` (no `=`: an empty value), both decoded.
pub open spec fn form_field(s: Seq<u8>) -> (Seq<char>, Seq<char>) {
    match first_eq(s) {
        Some(i) => (form_decode(s.take(i)), form_decode(s.skip(i + 1))),
        None => (form_decode(s), form_decode(Seq::empty())),
    }
}

/// `form_urlencoded::parse`: the non-empty `&`-separated fields, split and
/// decoded.
pub open spec fn form_parse(text: Seq<char>) -> Seq<(Seq<char>, Seq<char>)> {
    let fields = nonempty_pieces(split_bytes(encode_utf8(text), 0x26));
    Seq::new(fields.len(), |i: int| form_field(fields[i]))
}

/// Bytes that the form serializer writes as they are.
pub open spec fn form_plain_byte(b: u8) -> bool {
    b == 0x2a || b == 0x2d || b == 0x2e || (0x30 <= b <= 0x39) || (0x41 <= b <= 0x5a) || b == 0x5f
        || (0x61 <= b <= 0x7a)
}

/// `form_urlencoded::byte_serialize`: plain bytes as they are, space as `+`,
/// any other byte as `%` and two upper-case hex digits.
pub open spec fn form_encode_bytes(bytes: Seq<u8>) -> Seq<char>
    decreases bytes.len(),
{
    if bytes.len() == 0 {
        Seq::empty()
    } else {
        let b = bytes[0];
        let head = if form_plain_byte(b) {
            seq![(b as u32) as char]
        } else if b == 0x20 {
            seq!['+']
        } else {
            seq![
                '%',
                crate::tool_services::hex_digit((b / 16) as nat),
                crate::tool_services::hex_digit((b % 16) as nat),
            ]
        };
        head + form_encode_bytes(bytes.drop_first())
    }
}

/// `form_urlencoded::Serializer` on an empty string: `name=value` for each
/// pair, joined by `&`.
pub open spec fn form_serialize(pairs: Seq<(Seq<char>, Seq<char>)>) -> Seq<char> {
    join(
        Seq::new(
            pairs.len(),
            |i: int| form_encode_bytes(encode_utf8(pairs[i].0)) + "="@ + form_encode_bytes(encode_utf8(pairs[i].1)),
        ),
        "&"@,
    )
}

/// The views of string pairs.
pub open spec fn pair_views(s: Seq<(String, String)>) -> Seq<(Seq<char>, Seq<char>)> {
    Seq::new(s.len(), |i: int| (s[i].0@, s[i].1@))
}

/// `form_urlencoded::parse(text.as_bytes()).into_owned().collect()`.
#[verifier::external_body]
fn form_pairs(text: &str) -> (r: Vec<(String, String)>)
    ensures
        pair_views(r@) == form_parse(text@),
{
    url::form_urlencoded::parse(text.as_bytes()).into_owned().collect()
}

/// `form_urlencoded::Serializer::new(String::new())`, `extend_pairs` and
/// `finish`.
#[verifier::external_body]
fn form_encode(pairs: &Vec<(String, String)>) -> (r: String)
    ensures
        r@ == form_serialize(pair_views(pairs@)),
{
    let mut s = url::form_urlencoded::Serializer::new(String::new());
    s.extend_pairs(pairs.iter().map(|(k, v)| (k.as_str(), v.as_str())));
    s.finish()
}

/// The first pair with the name, if any.
pub open spec fn pair_pos(pairs: Seq<(Seq<char>, Seq<char>)>, key: Seq<char>) -> Option<int> {
    if exists|i: int| 0 <= i < pairs.len() && pairs[i].0 == key && forall|j: int| 0 <= j < i ==> pairs[j].0 != key {
        Some(choose|i: int| 0 <= i < pairs.len() && pairs[i].0 == key && forall|j: int| 0 <= j < i ==> pairs[j].0 != key)
    } else {
        None
    }
}

/// The first pair of the name gets the value, or the pair is appended.
pub open spec fn put_pair(pairs: Seq<(Seq<char>, Seq<char>)>, key: Seq<char>, value: Seq<char>) -> Seq<(Seq<char>, Seq<char>)> {
    match pair_pos(pairs, key) {
        Some(j) => pairs.update(j, (key, value)),
        None => pairs.push((key, value)),
    }
}

/// Form rules applied in order; `vals[i]` is rule `i`'s value as text.
pub open spec fn form_edits(pairs: Seq<(Seq<char>, Seq<char>)>, rules: Seq<BodyRewriteRule>, vals: Seq<Seq<char>>) -> Seq<(Seq<char>, Seq<char>)>
    decreases rules.len(),
{
    if rules.len() == 0 {
        pairs
    } else {
        put_pair(form_edits(pairs, rules.drop_last(), vals.drop_last()), rules.last().path@, vals.last())
    }
}

/// The text a form rule writes for a JSON value: a string's content,
/// nothing for null, and serde_json's text of any other value.
pub open spec fn form_value(v: JsonView) -> Seq<char> {
    match v {
        JsonView::Str(s) => s,
        JsonView::Null => Seq::empty(),
        _ => json_printed(v),
    }
}

/// The texts that rules write for their parsed values.
pub open spec fn form_values(docs: Seq<Option<JsonView>>) -> Seq<Seq<char>> {
    Seq::new(docs.len(), |i: int| form_value(docs[i]->0))
}

/// What a form body rewrite returns: a rule value that is not JSON, or is
/// nested too deeply, makes a `Json` error; otherwise no applicable rule
/// leaves the body unchanged, and some rules give the fields of the body
/// (decoded lossily as UTF-8) edited by the rules in order and serialised
/// again.
pub open spec fn form_rewrite_spec(r: Result<RewriteOutcome, AppError>, body: Seq<u8>, rules: Seq<BodyRewriteRule>) -> bool {
    let fr = select(rules, |x: BodyRewriteRule| is_form_rule(x));
    let docs = rule_docs(fr);
    if exists|i: int| 0 <= i < fr.len() && (#[trigger] docs[i]) is None {
        r matches Err(AppError::Json(_))
    } else if fr.len() == 0 {
        r matches Ok(o) && o.view() == (false, Seq::<u8>::empty(), None::<Seq<char>>)
    } else {
        r matches Ok(o) && o.view() == (
            true,
            encode_utf8(form_serialize(form_edits(form_parse(utf8_lossy(body)), fr, form_values(docs)))),
            None::<Seq<char>>,
        )
    }
}

fn find_pair(pairs: &Vec<(String, String)>, key: &str) -> (r: Option<usize>)
    ensures
        match r {
            Some(j) => j < pairs@.len() && pair_pos(pair_views(pairs@), key@) == Some(j as int),
            None => pair_pos(pair_views(pairs@), key@) is None,
        },
{
    let ghost pv = pair_views(pairs@);
    let n = pairs.len();
    let mut i: usize = 0;
    while i < n
        invariant
            n == pairs@.len(),
            pv == pair_views(pairs@),
            i <= n,
            forall|j: int| 0 <= j < i ==> pv[j].0 != key@,
        decreases n - i,
    {
        if str_eq(pairs[i].0.as_str(), key) {
            proof {
                let c = choose|c: int| 0 <= c < pv.len() && pv[c].0 == key@ && forall|j: int| 0 <= j < c ==> pv[j].0 != key@;
                assert(pv[i as int].0 == key@);
                if c < i {
                    assert(pv[c].0 != key@);
                } else if c > i {
                    assert(pv[i as int].0 != key@);
                }
            }
            return Some(i);
        }
        i = i + 1;
    }
    None
}

/// The text a form rule writes for a parsed value.
fn form_value_text(v: JsonValue) -> (r: Result<String, AppError>)
    requires
        sorted_tree(v.tree()),
    ensures
        r is Ok <==> depth_within(v.tree(), usize::MAX as nat) || v is Str || v is Null,
        r matches Ok(s) ==> s@ == form_value(v.tree()),
        r is Err ==> r->Err_0 is Json,
{
    match v {
        JsonValue::Str(s) => Ok(s),
        JsonValue::Null => Ok(String::new()),
        other => json_text(other),
    }
}

fn rewrite_form_body(body: &[u8], rules: &[BodyRewriteRule]) -> (r: Result<RewriteOutcome, AppError>)
    ensures
        form_rewrite_spec(r, body@, rules@),
{
    let text = string_from_utf8_lossy(body);
    let mut pairs = form_pairs(text.as_str());
    let ghost start = pair_views(pairs@);
    let ghost ff = |x: BodyRewriteRule| is_form_rule(x);
    let mut changed = false;
    let n = rules.len();
    let mut i: usize = 0;
    assert(rules@.take(0) =~= Seq::<BodyRewriteRule>::empty());
    assert(rule_docs(Seq::<BodyRewriteRule>::empty()) =~= Seq::<Option<JsonView>>::empty());
    while i < n
        invariant
            n == rules@.len(),
            i <= n,
            ff == (|x: BodyRewriteRule| is_form_rule(x)),
            forall|k: int| 0 <= k < select(rules@.take(i as int), ff).len() ==> (#[trigger] rule_docs(select(rules@.take(i as int), ff))[k]) is Some,
            pair_views(pairs@) == form_edits(start, select(rules@.take(i as int), ff), form_values(rule_docs(select(rules@.take(i as int), ff)))),
            changed == (select(rules@.take(i as int), ff).len() > 0),
        decreases n - i,
    {
        let rule = &rules[i];
        proof {
            assert(rules@.take(i + 1).drop_last() =~= rules@.take(i as int));
            assert(rules@.take(i + 1).last() == rules@[i as int]);
        }
        let bt = rule.body_type.as_str();
        if rule.enabled && (str_eq(bt, "auto") || str_eq(bt, "form")) {
            let ghost prev = select(rules@.take(i as int), ff);
            let ghost sel = select(rules@.take(i + 1), ff);
            assert(sel == prev.push(rules@[i as int]));
            assert(sel.drop_last() =~= prev);
            assert(sel.last() == rules@[i as int]);
            proof {
                lemma_rule_docs_push(prev, rules@[i as int]);
            }
            let vbytes = str_bytes(rule.value_json.as_str());
            let rp = parse_json(vbytes.as_slice());
            proof {
                lemma_parse_usable(vbytes@, rp);
            }
            let parsed = match rp {
                Ok(t) => t,
                Err(e) => {
                    proof {
                        lemma_select_prefix(rules@, i + 1, ff);
                        let full = select(rules@, ff);
                        let k = sel.len() - 1;
                        assert(full.take(sel.len() as int) == sel);
                        assert(rule_docs(full)[k] == rule_docs(sel)[k]);
                        assert(rule_docs(full)[k] is None);
                    }
                    return Err(e);
                },
            };
            let rendered = match form_value_text(parsed) {
                Ok(t) => t,
                Err(e) => return Err(e),
            };
            proof {
                assert(form_values(rule_docs(sel)).drop_last() =~= form_values(rule_docs(prev)));
                assert(form_values(rule_docs(sel)).last() == rendered@);
                assert forall|k: int| 0 <= k < sel.len() implies (#[trigger] rule_docs(sel)[k]) is Some by {
                    if k < prev.len() {
                        assert(rule_docs(sel)[k] == rule_docs(prev)[k]);
                    }
                }
            }
            let ghost before = pair_views(pairs@);
            match find_pair(&pairs, rule.path.as_str()) {
                Some(j) => {
                    pairs.set(j, (rule.path.clone(), rendered));
                    assert(pair_views(pairs@) =~= before.update(j as int, (rule.path@, form_values(rule_docs(sel)).last())));
                },
                None => {
                    pairs.push((rule.path.clone(), rendered));
                    assert(pair_views(pairs@) =~= before.push((rule.path@, form_values(rule_docs(sel)).last())));
                },
            }
            changed = true;
        }
        i = i + 1;
    }
    proof {
        lemma_select_all(rules@, ff);
    }
    if !changed {
        return Ok(RewriteOutcome::unchanged());
    }
    let encoded = form_encode(&pairs);
    let r = RewriteOutcome::changed(str_bytes(encoded.as_str()));
    Ok(r)
}

// ---------------------------------------------------------------------------
// The whole decision
// ---------------------------------------------------------------------------

/// The lower-cased content type, empty when absent.
pub open spec fn content_type_of(content_type: Option<&str>) -> Seq<char> {
    match content_type {
        Some(t) => lower_seq(t@),
        None => Seq::empty(),
    }
}

/// A content encoding that is present and not blank.
pub open spec fn encoded(content_encoding: Option<&str>) -> bool {
    content_encoding matches Some(e) && trim(e@).len() > 0
}

/// The reason given when a body is over the size limit.
pub open spec fn too_large_reason() -> Seq<char> {
    "body 超过最大可改写大小"@
}

/// The reason given when a compressed body is skipped.
pub open spec fn compressed_reason() -> Seq<char> {
    "压缩 body 已跳过"@
}

/// What a body rewrite returns, for the lower-cased content type `ct` and
/// whether a content encoding is given: without enabled rules, or for a
/// body of no known kind, nothing changes; a body over the limit, or a
/// compressed one when those are skipped, is skipped with a reason;
/// otherwise the JSON or form rules apply.
pub open spec fn body_rewrite_spec(
    r: Result<RewriteOutcome, AppError>,
    body: Seq<u8>,
    ct: Seq<char>,
    is_encoded: bool,
    max_rewrite_body_bytes: u64,
    skip_compressed_body: bool,
    rules: Seq<BodyRewriteRule>,
) -> bool {
    let proceed = some_enabled(rules) && body.len() <= max_rewrite_body_bytes && !(skip_compressed_body && is_encoded);
    let kind = body_kind(body, ct, rules);
    &&& !some_enabled(rules) ==> r is Ok && r->Ok_0.view() == (false, Seq::<u8>::empty(), None::<Seq<char>>)
    &&& some_enabled(rules) && body.len() > max_rewrite_body_bytes ==> r is Ok && r->Ok_0.view() == (false, Seq::<u8>::empty(), Some(too_large_reason()))
    &&& some_enabled(rules) && body.len() <= max_rewrite_body_bytes && skip_compressed_body && is_encoded
        ==> r is Ok && r->Ok_0.view() == (false, Seq::<u8>::empty(), Some(compressed_reason()))
    &&& (proceed && kind == BodyKind::Unknown) ==> r is Ok && r->Ok_0.view() == (false, Seq::<u8>::empty(), None::<Seq<char>>)
    &&& (proceed && kind == BodyKind::Json) ==> json_rewrite_spec(r, body, rules)
    &&& (proceed && kind == BodyKind::Form) ==> form_rewrite_spec(r, body, rules)
}

/// Rewrites a request body under the enabled rules. Without enabled rules,
/// or for a body of no known kind, nothing changes; a body over the limit,
/// or a compressed one when those are skipped, is skipped with a reason;
/// otherwise the JSON or form rules apply.
pub fn rewrite_body(
    body: &[u8],
    content_type: Option<&str>,
    content_encoding: Option<&str>,
    max_rewrite_body_bytes: u64,
    skip_compressed_body: bool,
    rules: &[BodyRewriteRule],
) -> (r: Result<RewriteOutcome, AppError>)
    ensures
        body_rewrite_spec(
            r,
            body@,
            content_type_of(content_type),
            encoded(content_encoding),
            max_rewrite_body_bytes,
            skip_compressed_body,
            rules@,
        ),
{
    if !has_enabled(rules) {
        return Ok(RewriteOutcome::unchanged());
    }
    if body.len() as u64 > max_rewrite_body_bytes {
        return Ok(RewriteOutcome::skipped("body 超过最大可改写大小"));
    }
    if skip_compressed_body {
        match content_encoding {
            Some(e) => {
                let ev = to_chars(e);
                let tv = trim_ws(ev.as_slice());
                if tv.len() > 0 {
                    return Ok(RewriteOutcome::skipped("压缩 body 已跳过"));
                }
            },
            None => {},
        }
    }
    let ct: Vec<char> = match content_type {
        Some(t) => {
            let tv = to_chars(t);
            to_lower(tv.as_slice())
        },
        None => {
            let v: Vec<char> = Vec::new();
            assert(v@ =~= Seq::<char>::empty());
            v
        },
    };
    match detect_body_kind(body, ct.as_slice(), rules) {
        BodyKind::Json => rewrite_json_body(body, rules),
        BodyKind::Form => rewrite_form_body(body, rules),
        BodyKind::Unknown => Ok(RewriteOutcome::unchanged()),
    }
}

} // verus!
