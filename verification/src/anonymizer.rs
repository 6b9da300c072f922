//! The data anonymizer: masks e-mail addresses, bearer tokens, JWTs, IP
//! addresses, UUIDs and Luhn-valid card numbers in inference triplets before
//! they leave the telemetry boundary, and keeps an audit of what it masked.

use vstd::prelude::*;
use crate::error::{require_topic, NebulaError};
use crate::order::{lex_less, lex_lt};
use crate::text::{chars_of, concat_all, owned, push_char, str_eq, string_of};

verus! {

pub const RAW_TOPIC: &'static str = "nebula.telemetry.raw_inferences";
pub const SANITIZED_TOPIC: &'static str = "pulsar.telemetry.inference_triplets";
pub const PRIVACY_METRIC: &'static str = "nebula.privacy.entities_masked";

/// A prompt with three sampled responses. `context` holds JSON text.
#[derive(Debug, Clone, PartialEq, Eq)]
pub struct InferenceTriplet {
    pub prompt: String,
    pub task_type: String,
    pub responses: [String; 3],
    pub context: String,
}

/// A masking rule: matches of `pattern` are replaced by `token`.
#[derive(Debug, Clone, PartialEq, Eq)]
pub struct MaskRule {
    pub name: String,
    pub token: String,
    pub pattern: String,
}

/// How many entities were masked, in total and per rule. `by_rule` holds one
/// entry per rule name that masked something, in name order.
#[derive(Debug, Clone, PartialEq, Eq)]
pub struct MaskAudit {
    pub total_masked: usize,
    pub by_rule: Vec<(String, usize)>,
}

/// A masked triplet with its audit.
#[derive(Debug, Clone, PartialEq, Eq)]
pub struct SanitizedTriplet {
    pub triplet: InferenceTriplet,
    pub audit: MaskAudit,
}

/// Where sanitized triplets go.
pub trait EventBus {
    fn publish(&mut self, topic: &str, event: &InferenceTriplet) -> Result<(), NebulaError>;
}

/// Where masking counts go.
pub trait PrivacyMetrics {
    fn push_mask_counts(&mut self, metric: &str, audit: &MaskAudit) -> Result<(), NebulaError>;
}

/// `publish`, called through `bus` with `topic` and `event`, may answer
/// `answer`.
#[verifier::inline]
pub open spec fn sanitized_published<B: EventBus>(
    bus: &mut B,
    topic: &str,
    event: &InferenceTriplet,
    answer: Result<(), NebulaError>,
) -> bool {
    call_ensures(B::publish, (bus, topic, event), answer)
}

/// `push_mask_counts`, called through `metrics` with `metric` and `audit`,
/// may answer `answer`.
#[verifier::inline]
pub open spec fn counts_pushed<M: PrivacyMetrics>(
    metrics: &mut M,
    metric: &str,
    audit: &MaskAudit,
    answer: Result<(), NebulaError>,
) -> bool {
    call_ensures(M::push_mask_counts, (metrics, metric, audit), answer)
}

// ---------------------------------------------------------------------------
// Regular expressions (the `regex` crate)
// ---------------------------------------------------------------------------

/// Whether `regex::Regex::new` accepts the pattern.
pub uninterp spec fn spec_pattern_valid(pattern: Seq<char>) -> bool;

/// The successive non-overlapping matches of `pattern` in `text`, as
/// `Regex::find_iter` yields them: for each match, the text between the end
/// of the previous match and its start, and the matched text; then the text
/// after the last match.
pub uninterp spec fn spec_match_pieces(pattern: Seq<char>, text: Seq<char>) -> (
    Seq<(Seq<char>, Seq<char>)>,
    Seq<char>,
);

/// What `Regex::replace_all` returns for `text` and the replacement `rep`.
pub uninterp spec fn spec_replace_all(pattern: Seq<char>, text: Seq<char>, rep: Seq<char>) -> Seq<
    char,
>;

/// The text rebuilt from match pieces, each match replaced by `f(match)`.
pub open spec fn rebuild(pieces: Seq<(Seq<char>, Seq<char>)>, tail: Seq<char>, rep: spec_fn(Seq<char>) -> Seq<char>) -> Seq<char>
    decreases pieces.len(),
{
    if pieces.len() == 0 {
        tail
    } else {
        rebuild(pieces.drop_last(), Seq::empty(), rep) + pieces.last().0 + rep(pieces.last().1) + tail
    }
}

/// Whether a replacement string holds no `$` (no capture-group expansion).
pub open spec fn is_literal_replacement(rep: Seq<char>) -> bool {
    forall|i: int| 0 <= i < rep.len() ==> rep[i] != '$'
}

/// Calls `regex::Regex::new`: nothing when the pattern compiles, otherwise
/// the text of the crate's error (its `Display`). The contract states when
/// the pattern compiles; the error's text is left unsaid.
#[verifier::external_body]
fn pattern_error(pattern: &str) -> (r: Option<String>)
    ensures
        r is None <==> spec_pattern_valid(pattern@),
{
    match regex::Regex::new(pattern) {
        Ok(_) => None,
        Err(e) => Some(e.to_string()),
    }
}

/// Compiles the pattern with `regex::Regex::new` and walks
/// `Regex::find_iter` over `text`, slicing the text around each match. The
/// result is named by `spec_match_pieces`; the contract also states what the
/// crate documents of `find_iter`: the matches are successive and
/// non-overlapping, so the gaps, matches and tail put back together are the
/// text.
#[verifier::external_body]
fn match_pieces(pattern: &str, text: &str) -> (r: (Vec<(String, String)>, String))
    requires
        spec_pattern_valid(pattern@),
    ensures
        r.0@.map_values(|p: (String, String)| (p.0@, p.1@)) == spec_match_pieces(pattern@, text@).0,
        r.1@ == spec_match_pieces(pattern@, text@).1,
        rebuild(r.0@.map_values(|p: (String, String)| (p.0@, p.1@)), r.1@, |m: Seq<char>| m) == text@,
{
    let re = match regex::Regex::new(pattern) {
        Ok(re) => re,
        Err(_) => return (Vec::new(), text.to_string()),
    };
    let mut pieces = Vec::new();
    let mut last: usize = 0;
    for m in re.find_iter(text) {
        pieces.push((text[last..m.start()].to_string(), m.as_str().to_string()));
        last = m.end();
    }
    (pieces, text[last..].to_string())
}

/// Compiles the pattern and calls `Regex::replace_all(text, rep)`. The
/// result is named by `spec_replace_all`; the contract also states what the
/// crate's source shows for a replacement without `$`: every match is
/// replaced by the replacement as is.
#[verifier::external_body]
fn replace_all(pattern: &str, text: &str, rep: &str) -> (r: String)
    requires
        spec_pattern_valid(pattern@),
    ensures
        r@ == spec_replace_all(pattern@, text@, rep@),
        is_literal_replacement(rep@) ==> r@ == rebuild(
            spec_match_pieces(pattern@, text@).0,
            spec_match_pieces(pattern@, text@).1,
            |m: Seq<char>| rep@,
        ),
{
    match regex::Regex::new(pattern) {
        Ok(re) => re.replace_all(text, rep).into_owned(),
        Err(_) => text.to_string(),
    }
}

// ---------------------------------------------------------------------------
// Luhn check
// ---------------------------------------------------------------------------

/// Whether a character is an ASCII digit.
pub open spec fn is_digit(c: char) -> bool {
    '0' <= c <= '9'
}

/// The ASCII digits of `s`, in order.
pub open spec fn ascii_digits(s: Seq<char>) -> Seq<char>
    decreases s.len(),
{
    if s.len() == 0 {
        Seq::empty()
    } else if is_digit(s.last()) {
        ascii_digits(s.drop_last()).push(s.last())
    } else {
        ascii_digits(s.drop_last())
    }
}

/// The contribution of a digit to the Luhn sum; digits at odd positions
/// (counting from the right, from zero) are doubled, minus nine above nine.
pub open spec fn luhn_value(d: int, odd: bool) -> int {
    if odd {
        if 2 * d > 9 { 2 * d - 9 } else { 2 * d }
    } else {
        d
    }
}

/// The Luhn sum of digits given from the rightmost one.
pub open spec fn luhn_total(rev: Seq<char>) -> int
    decreases rev.len(),
{
    if rev.len() == 0 {
        0
    } else {
        luhn_total(rev.drop_last()) + luhn_value(
            rev.last() as int - '0' as int,
            (rev.len() - 1) % 2 == 1,
        )
    }
}

/// Whether `digits` is a 13 to 19 digit number that passes the Luhn check.
pub open spec fn luhn_valid(digits: Seq<char>) -> bool {
    &&& 13 <= digits.len() <= 19
    &&& forall|i: int| 0 <= i < digits.len() ==> is_digit(#[trigger] digits[i])
    &&& luhn_total(digits.reverse()) % 10 == 0
}

/// Each digit adds a value from 0 to 9 to the Luhn sum: a digit at an even
/// position from the right adds itself, one at an odd position adds the sum
/// of the decimal digits of its double.
pub proof fn law_luhn_digit_value(d: int, odd: bool)
    requires
        0 <= d <= 9,
    ensures
        0 <= luhn_value(d, odd) <= 9,
        !odd ==> luhn_value(d, odd) == d,
        odd ==> luhn_value(d, odd) == (2 * d) / 10 + (2 * d) % 10,
{
}

/// Two digit strings that differ in one position add Luhn sums that differ
/// by the difference of that position's two contributions.
proof fn lemma_luhn_total_one_change(r1: Seq<char>, r2: Seq<char>, k: int)
    requires
        r1.len() == r2.len(),
        0 <= k < r1.len(),
        forall|i: int| 0 <= i < r1.len() && i != k ==> r1[i] == r2[i],
    ensures
        luhn_total(r1) - luhn_total(r2) == luhn_value(r1[k] as int - '0' as int, k % 2 == 1)
            - luhn_value(r2[k] as int - '0' as int, k % 2 == 1),
    decreases r1.len(),
{
    if k == r1.len() - 1 {
        assert(r1.drop_last() =~= r2.drop_last());
    } else {
        lemma_luhn_total_one_change(r1.drop_last(), r2.drop_last(), k);
    }
}

/// The Luhn check catches every single-digit error: of two digit strings of
/// one length that differ in exactly one digit, at most one passes.
pub proof fn law_luhn_detects_single_digit_errors(a: Seq<char>, b: Seq<char>, k: int)
    requires
        a.len() == b.len(),
        0 <= k < a.len(),
        a[k] != b[k],
        forall|i: int| 0 <= i < a.len() && i != k ==> a[i] == b[i],
    ensures
        !(luhn_valid(a) && luhn_valid(b)),
{
    if luhn_valid(a) && luhn_valid(b) {
        let n = a.len() as int;
        let ra = a.reverse();
        let rb = b.reverse();
        let j = n - 1 - k;
        assert forall|i: int| 0 <= i < n && i != j implies ra[i] == rb[i] by {
            assert(ra[i] == a[n - 1 - i] && rb[i] == b[n - 1 - i]);
        }
        lemma_luhn_total_one_change(ra, rb, j);
        assert(is_digit(a[k]) && is_digit(b[k]));
        let da = a[k] as int - '0' as int;
        let db = b[k] as int - '0' as int;
        assert(ra[j] == a[k] && rb[j] == b[k]);
        assert(da != db);
        let diff = luhn_value(da, j % 2 == 1) - luhn_value(db, j % 2 == 1);
        assert(diff != 0 && -9 <= diff <= 9);
        let ta = luhn_total(ra);
        let tb = luhn_total(rb);
        assert(ta - tb == diff);
        assert(ta % 10 == 0 && tb % 10 == 0);
        assert(ta == 10 * (ta / 10) && tb == 10 * (tb / 10));
        assert(false);
    }
}

/// Only strings of 13 to 19 ASCII digits can pass the Luhn check.
pub proof fn law_luhn_shape(digits: Seq<char>)
    ensures
        luhn_valid(digits) ==> 13 <= digits.len() <= 19,
        luhn_valid(digits) ==> forall|i: int| 0 <= i < digits.len() ==> '0' <= #[trigger] digits[i] <= '9',
{
}

/// The published test numbers of the card networks pass the Luhn check, with
/// 16 (Mastercard), 15 (American Express) and 13 (Visa) digits; their last
/// digit changed by one fails it.
pub proof fn law_luhn_test_card_numbers()
    ensures
        luhn_valid(seq!['5', '5', '5', '5', '5', '5', '5', '5', '5', '5', '5', '5', '4', '4', '4', '4']),
        luhn_valid(seq!['3', '7', '8', '2', '8', '2', '2', '4', '6', '3', '1', '0', '0', '0', '5']),
        luhn_valid(seq!['4', '2', '2', '2', '2', '2', '2', '2', '2', '2', '2', '2', '2']),
        !luhn_valid(seq!['5', '5', '5', '5', '5', '5', '5', '5', '5', '5', '5', '5', '4', '4', '4', '5']),
{
    reveal_with_fuel(luhn_total, 20);
    let m = seq!['5', '5', '5', '5', '5', '5', '5', '5', '5', '5', '5', '5', '4', '4', '4', '4'];
    let a = seq!['3', '7', '8', '2', '8', '2', '2', '4', '6', '3', '1', '0', '0', '0', '5'];
    let v = seq!['4', '2', '2', '2', '2', '2', '2', '2', '2', '2', '2', '2', '2'];
    let w = seq!['5', '5', '5', '5', '5', '5', '5', '5', '5', '5', '5', '5', '4', '4', '4', '5'];
    assert(m.reverse() =~= seq!['4', '4', '4', '4', '5', '5', '5', '5', '5', '5', '5', '5', '5', '5', '5', '5']);
    assert(a.reverse() =~= seq!['5', '0', '0', '0', '1', '3', '6', '4', '2', '2', '8', '2', '8', '7', '3']);
    assert(v.reverse() =~= seq!['2', '2', '2', '2', '2', '2', '2', '2', '2', '2', '2', '2', '4']);
    assert(w.reverse() =~= seq!['5', '4', '4', '4', '5', '5', '5', '5', '5', '5', '5', '5', '5', '5', '5', '5']);
}

/// Whether `digits` is a 13 to 19 digit number that passes the Luhn check.
pub fn luhn_check(digits: &Vec<char>) -> (b: bool)
    ensures
        b == luhn_valid(digits@),
{
    if digits.len() < 13 || digits.len() > 19 {
        return false;
    }
    let mut k: usize = 0;
    while k < digits.len()
        invariant
            k <= digits.len(),
            forall|i: int| 0 <= i < k ==> is_digit(#[trigger] digits@[i]),
        decreases digits.len() - k,
    {
        if !(digits[k] >= '0' && digits[k] <= '9') {
            assert(!is_digit(digits@[k as int]));
            return false;
        }
        k = k + 1;
    }
    let n = digits.len();
    let mut sum: u32 = 0;
    let mut i: usize = 0;
    while i < n
        invariant
            n == digits.len(),
            13 <= n <= 19,
            i <= n,
            forall|q: int| 0 <= q < n ==> is_digit(#[trigger] digits@[q]),
            sum == luhn_total(digits@.reverse().take(i as int)),
            sum <= 9 * i,
        decreases n - i,
    {
        let c = digits[n - 1 - i];
        assert(is_digit(digits@[n - 1 - i]));
        let d: u32 = (c as u32) - ('0' as u32);
        let value: u32 = if i % 2 == 1 {
            if 2 * d > 9 { 2 * d - 9 } else { 2 * d }
        } else {
            d
        };
        proof {
            let r = digits@.reverse();
            assert(r[i as int] == digits@[n - 1 - i]);
            assert(r.take(i + 1).drop_last() =~= r.take(i as int));
            assert(r.take(i + 1).last() == r[i as int]);
        }
        sum = sum + value;
        i = i + 1;
    }
    assert(digits@.reverse().take(n as int) =~= digits@.reverse());
    sum % 10 == 0
}

/// The ASCII digits of a string, as characters.
fn digits_of(s: &str) -> (d: Vec<char>)
    ensures
        d@ == ascii_digits(s@),
{
    let v = chars_of(s);
    let mut d: Vec<char> = Vec::new();
    let mut i: usize = 0;
    while i < v.len()
        invariant
            v@ == s@,
            i <= v.len(),
            d@ == ascii_digits(v@.take(i as int)),
        decreases v.len() - i,
    {
        proof {
            let t = v@.take(i + 1);
            assert(t.drop_last() =~= v@.take(i as int));
            assert(t.last() == v@[i as int]);
        }
        if v[i] >= '0' && v[i] <= '9' {
            d.push(v[i]);
        }
        i = i + 1;
    }
    assert(v@.take(v.len() as int) =~= v@);
    d
}

// ---------------------------------------------------------------------------
// Masking
// ---------------------------------------------------------------------------

/// The name of the rule whose candidates are masked only when Luhn-valid.
pub open spec fn credit_card_name() -> Seq<char> {
    "credit_card"@
}

/// The number of Luhn-valid candidates among match pieces.
pub open spec fn luhn_count(pieces: Seq<(Seq<char>, Seq<char>)>) -> nat
    decreases pieces.len(),
{
    if pieces.len() == 0 {
        0
    } else {
        luhn_count(pieces.drop_last()) + if luhn_valid(ascii_digits(pieces.last().1)) {
            1nat
        } else {
            0nat
        }
    }
}

/// The masked text and the number of masked entities after applying one
/// rule to `text`. Card candidates are masked only when their digits pass the
/// Luhn check; other rules mask every match through `replace_all`.
pub open spec fn apply_rule(rule_name: Seq<char>, token: Seq<char>, pattern: Seq<char>, text: Seq<char>) -> (Seq<char>, nat) {
    let (pieces, tail) = spec_match_pieces(pattern, text);
    if rule_name == credit_card_name() {
        let count = luhn_count(pieces);
        if count == 0 {
            (text, 0)
        } else {
            (
                rebuild(
                    pieces,
                    tail,
                    |m: Seq<char>| if luhn_valid(ascii_digits(m)) { token } else { m },
                ),
                count,
            )
        }
    } else if pieces.len() == 0 {
        (text, 0)
    } else {
        (spec_replace_all(pattern, text, token), pieces.len())
    }
}

/// `a + b`, saturating at `usize::MAX`.
pub open spec fn sat_add(a: nat, b: nat) -> nat {
    if a + b > usize::MAX { usize::MAX as nat } else { a + b }
}

/// The per-rule counts with `count` added to `name` (a new entry, kept in
/// name order, when the name is new).
pub open spec fn add_count(by_rule: Seq<(Seq<char>, nat)>, name: Seq<char>, count: nat) -> Seq<(Seq<char>, nat)>
    decreases by_rule.len(),
{
    if by_rule.len() == 0 {
        seq![(name, count)]
    } else if by_rule[0].0 == name {
        seq![(name, sat_add(by_rule[0].1, count))] + by_rule.drop_first()
    } else if lex_lt(name, by_rule[0].0) {
        seq![(name, count)] + by_rule
    } else {
        seq![by_rule[0]] + add_count(by_rule.drop_first(), name, count)
    }
}

/// The audit as plain values.
pub open spec fn audit_view(a: MaskAudit) -> (nat, Seq<(Seq<char>, nat)>) {
    (a.total_masked as nat, a.by_rule@.map_values(|e: (String, usize)| (e.0@, e.1 as nat)))
}

/// The audit after a rule masked `count` entities.
pub open spec fn record(audit: (nat, Seq<(Seq<char>, nat)>), name: Seq<char>, count: nat) -> (nat, Seq<(Seq<char>, nat)>) {
    if count == 0 {
        audit
    } else {
        (sat_add(audit.0, count), add_count(audit.1, name, count))
    }
}

/// The text and audit after applying rules `0..n` in order.
pub open spec fn mask_with(rules: Seq<MaskRule>, n: int, text: Seq<char>, audit: (nat, Seq<(Seq<char>, nat)>)) -> (Seq<char>, (nat, Seq<(Seq<char>, nat)>))
    decreases n,
{
    if n <= 0 {
        (text, audit)
    } else {
        let (t, a) = mask_with(rules, n - 1, text, audit);
        let r = rules[n - 1];
        let (masked, count) = apply_rule(r.name@, r.token@, r.pattern@, t);
        (masked, record(a, r.name@, count))
    }
}

/// Whether every rule's pattern compiles.
pub open spec fn all_patterns_valid(rules: Seq<MaskRule>) -> bool {
    forall|i: int| 0 <= i < rules.len() ==> spec_pattern_valid(#[trigger] rules[i].pattern@)
}

/// The first rule whose pattern does not compile.
pub open spec fn first_invalid(rules: Seq<MaskRule>, i: int) -> bool {
    &&& 0 <= i < rules.len()
    &&& !spec_pattern_valid(rules[i].pattern@)
    &&& forall|k: int| 0 <= k < i ==> spec_pattern_valid(#[trigger] rules[k].pattern@)
}

/// Adds `count` to the entry of `name`.
fn add_count_exec(by_rule: &mut Vec<(String, usize)>, name: &String, count: usize)
    ensures
        final(by_rule)@.map_values(|e: (String, usize)| (e.0@, e.1 as nat)) == add_count(
            old(by_rule)@.map_values(|e: (String, usize)| (e.0@, e.1 as nat)),
            name@,
            count as nat,
        ),
{
    let ghost v0 = old(by_rule)@.map_values(|e: (String, usize)| (e.0@, e.1 as nat));
    proof {
        assert(v0.skip(0) =~= v0);
        assert(v0.take(0) + add_count(v0, name@, count as nat) =~= add_count(v0, name@, count as nat));
    }
    let name_chars = chars_of(name.as_str());
    let mut i: usize = 0;
    while i < by_rule.len()
        invariant
            by_rule@ == old(by_rule)@,
            v0 == old(by_rule)@.map_values(|e: (String, usize)| (e.0@, e.1 as nat)),
            name_chars@ == name@,
            i <= by_rule.len(),
            forall|k: int| 0 <= k < i ==> by_rule@[k].0@ != name@,
            add_count(v0, name@, count as nat) == v0.take(i as int) + add_count(
                v0.skip(i as int),
                name@,
                count as nat,
            ),
        decreases by_rule.len() - i,
    {
        if by_rule[i].0 == *name {
            let old_count = by_rule[i].1;
            let updated = if old_count > usize::MAX - count { usize::MAX } else { old_count + count };
            let entry = (name.clone(), updated);
            let ghost before = by_rule@;
            by_rule.set(i, entry);
            proof {
                let s = v0.skip(i as int);
                assert(s[0] == v0[i as int]);
                assert(s.drop_first() =~= v0.skip(i + 1));
                let after = by_rule@.map_values(|e: (String, usize)| (e.0@, e.1 as nat));
                assert(after =~= v0.take(i as int) + (seq![(name@, sat_add(v0[i as int].1, count as nat))]
                    + v0.skip(i + 1)));
            }
            return;
        }
        let entry_chars = chars_of(by_rule[i].0.as_str());
        if lex_less(&name_chars, &entry_chars) {
            by_rule.insert(i, (name.clone(), count));
            proof {
                let s = v0.skip(i as int);
                assert(s[0] == v0[i as int]);
                let after = by_rule@.map_values(|e: (String, usize)| (e.0@, e.1 as nat));
                assert(after =~= v0.take(i as int) + (seq![(name@, count as nat)] + v0.skip(
                    i as int,
                )));
            }
            return;
        }
        proof {
            let s = v0.skip(i as int);
            assert(s[0] == v0[i as int]);
            assert(s.drop_first() =~= v0.skip(i + 1));
            assert(v0.take(i + 1) =~= v0.take(i as int) + seq![v0[i as int]]);
        }
        i = i + 1;
    }
    proof {
        assert(v0.skip(i as int) =~= Seq::<(Seq<char>, nat)>::empty());
    }
    by_rule.push((name.clone(), count));
    proof {
        let after = by_rule@.map_values(|e: (String, usize)| (e.0@, e.1 as nat));
        assert(v0.take(i as int) =~= v0);
        assert(after =~= v0 + seq![(name@, count as nat)]);
    }
}

/// Records `count` masked entities of rule `name` in the audit.
fn record_exec(audit: &mut MaskAudit, name: &String, count: usize)
    ensures
        audit_view(*final(audit)) == record(audit_view(*old(audit)), name@, count as nat),
{
    if count == 0 {
        return;
    }
    audit.total_masked = if audit.total_masked > usize::MAX - count {
        usize::MAX
    } else {
        audit.total_masked + count
    };
    add_count_exec(&mut audit.by_rule, name, count);
}

/// Rebuilds text from pieces, masking Luhn-valid candidates.
fn mask_cards(pieces: &Vec<(String, String)>, tail: &String, token: &String) -> (r: (String, usize))
    ensures
        r.0@ == rebuild(
            pieces@.map_values(|p: (String, String)| (p.0@, p.1@)),
            tail@,
            |m: Seq<char>| if luhn_valid(ascii_digits(m)) { token@ } else { m },
        ),
        r.1 == luhn_count(pieces@.map_values(|p: (String, String)| (p.0@, p.1@))),
{
    let ghost f = |m: Seq<char>| if luhn_valid(ascii_digits(m)) { token@ } else { m };
    let ghost pv = pieces@.map_values(|p: (String, String)| (p.0@, p.1@));
    let mut out = String::new();
    let mut count: usize = 0;
    let mut i: usize = 0;
    while i < pieces.len()
        invariant
            i <= pieces.len(),
            pv == pieces@.map_values(|p: (String, String)| (p.0@, p.1@)),
            f == (|m: Seq<char>| if luhn_valid(ascii_digits(m)) { token@ } else { m }),
            out@ == rebuild(pv.take(i as int), Seq::empty(), f),
            count == luhn_count(pv.take(i as int)),
            count <= i,
        decreases pieces.len() - i,
    {
        let digits = digits_of(pieces[i].1.as_str());
        out.append(pieces[i].0.as_str());
        let valid = luhn_check(&digits);
        if valid {
            out.append(token.as_str());
            count = count + 1;
        } else {
            out.append(pieces[i].1.as_str());
        }
        proof {
            let t = pv.take(i + 1);
            assert(t.drop_last() =~= pv.take(i as int));
            assert(t.last() == pv[i as int]);
            assert(rebuild(t.drop_last(), Seq::<char>::empty(), f) + Seq::<char>::empty() =~= rebuild(
                t.drop_last(),
                Seq::<char>::empty(),
                f,
            ));
        }
        i = i + 1;
    }
    proof {
        assert(pv.take(pieces.len() as int) =~= pv);
        lemma_rebuild_tail(pv, tail@, f);
    }
    out.append(tail.as_str());
    (out, count)
}

/// Rebuilding with a tail appends the tail to the rebuild without one.
proof fn lemma_rebuild_tail(pieces: Seq<(Seq<char>, Seq<char>)>, tail: Seq<char>, f: spec_fn(Seq<char>) -> Seq<char>)
    ensures
        rebuild(pieces, tail, f) == rebuild(pieces, Seq::empty(), f) + tail,
{
    if pieces.len() > 0 {
        assert(rebuild(pieces, tail, f) =~= rebuild(pieces, Seq::empty(), f) + tail);
    } else {
        assert(rebuild(pieces, Seq::<char>::empty(), f) + tail =~= tail);
    }
}

/// Applies one rule to `text`, recording what it masked.
fn apply_rule_exec(rule: &MaskRule, text: String, audit: &mut MaskAudit) -> (r: String)
    requires
        spec_pattern_valid(rule.pattern@),
    ensures
        r@ == apply_rule(rule.name@, rule.token@, rule.pattern@, text@).0,
        audit_view(*final(audit)) == record(
            audit_view(*old(audit)),
            rule.name@,
            apply_rule(rule.name@, rule.token@, rule.pattern@, text@).1,
        ),
{
    let (pieces, tail) = match_pieces(rule.pattern.as_str(), text.as_str());
    let ghost pv = pieces@.map_values(|p: (String, String)| (p.0@, p.1@));
    if str_eq(rule.name.as_str(), "credit_card") {
        let (masked, count) = mask_cards(&pieces, &tail, &rule.token);
        if count == 0 {
            return text;
        }
        record_exec(audit, &rule.name, count);
        return masked;
    }
    let count = pieces.len();
    if count == 0 {
        proof {
            assert(pv.len() == 0);
        }
        return text;
    }
    let masked = replace_all(rule.pattern.as_str(), text.as_str(), rule.token.as_str());
    record_exec(audit, &rule.name, count);
    masked
}

/// Checks that every rule's pattern compiles; reports the first that does not.
fn check_rules(rules: &[MaskRule]) -> (r: Result<(), NebulaError>)
    ensures
        r is Ok <==> all_patterns_valid(rules@),
        r matches Err(e) ==> exists|i: int|
            first_invalid(rules@, i) && (e matches NebulaError::InvalidPattern(n, _) && n@
                == rules@[i].name@),
{
    let mut i: usize = 0;
    while i < rules.len()
        invariant
            i <= rules@.len(),
            forall|k: int| 0 <= k < i ==> spec_pattern_valid(#[trigger] rules@[k].pattern@),
        decreases rules.len() - i,
    {
        if let Some(detail) = pattern_error(rules[i].pattern.as_str()) {
            assert(first_invalid(rules@, i as int));
            return Err(NebulaError::InvalidPattern(rules[i].name.clone(), detail));
        }
        i = i + 1;
    }
    Ok(())
}

/// Applies all rules to `text`, in order.
fn mask_text(text: &str, rules: &[MaskRule], audit: &mut MaskAudit) -> (r: String)
    requires
        all_patterns_valid(rules@),
    ensures
        (r@, audit_view(*final(audit))) == mask_with(rules@, rules@.len() as int, text@, audit_view(*old(audit))),
{
    let mut masked = owned(text);
    let mut i: usize = 0;
    while i < rules.len()
        invariant
            i <= rules@.len(),
            all_patterns_valid(rules@),
            (masked@, audit_view(*audit)) == mask_with(rules@, i as int, text@, audit_view(*old(audit))),
        decreases rules.len() - i,
    {
        masked = apply_rule_exec(&rules[i], masked, audit);
        i = i + 1;
    }
    masked
}

/// The empty audit.
pub open spec fn empty_audit() -> (nat, Seq<(Seq<char>, nat)>) {
    (0, Seq::empty())
}

/// Masks one text with the rules. Refuses the rules, naming the first one,
/// when a pattern does not compile.
pub fn sandbox_text(text: &str, rules: &[MaskRule]) -> (r: Result<(String, MaskAudit), NebulaError>)
    ensures
        r is Ok <==> all_patterns_valid(rules@),
        r matches Ok(p) ==> (p.0@, audit_view(p.1)) == mask_with(rules@, rules@.len() as int, text@, empty_audit()),
        r matches Err(e) ==> exists|i: int|
            first_invalid(rules@, i) && (e matches NebulaError::InvalidPattern(n, _) && n@
                == rules@[i].name@),
{
    check_rules(rules)?;
    let mut audit = MaskAudit { total_masked: 0, by_rule: Vec::new() };
    assert(audit_view(audit) =~= empty_audit());
    let masked = mask_text(text, rules, &mut audit);
    Ok((masked, audit))
}


// ---------------------------------------------------------------------------
// Default rules
// ---------------------------------------------------------------------------

/// The name, token and pattern of the `i`-th default rule.
pub open spec fn default_rule(i: int) -> (Seq<char>, Seq<char>, Seq<char>) {
    if i == 0 {
        ("email"@, "<EMAIL>"@, r"(?i)\b[A-Z0-9._%+-]+@[A-Z0-9.-]+\.[A-Z]{2,}\b"@)
    } else if i == 1 {
        ("bearer_token"@, "<BEARER_TOKEN>"@, r"(?i)\bBearer\s+[A-Za-z0-9._~+/=-]{16,}\b"@)
    } else if i == 2 {
        ("jwt"@, "<JWT>"@, r"\beyJ[A-Za-z0-9_-]+\.[A-Za-z0-9_-]+\.[A-Za-z0-9_-]+\b"@)
    } else if i == 3 {
        ("ipv4"@, "<IPV4>"@, r"\b(?:\d{1,3}\.){3}\d{1,3}\b"@)
    } else if i == 4 {
        (
            "uuid"@,
            "<UUID>"@,
            r"\b[0-9a-fA-F]{8}-[0-9a-fA-F]{4}-[0-9a-fA-F]{4}-[0-9a-fA-F]{4}-[0-9a-fA-F]{12}\b"@,
        )
    } else if i == 5 {
        ("ipv6"@, "<IPV6>"@, r"\b(?:[0-9a-fA-F]{1,4}:){2,7}[0-9a-fA-F]{1,4}\b"@)
    } else {
        ("credit_card"@, "<CREDIT_CARD>"@, r"\b(?:\d[ -]*?){13,19}\b"@)
    }
}

fn rule(name: &str, token: &str, pattern: &str) -> (r: MaskRule)
    ensures
        r.name@ == name@,
        r.token@ == token@,
        r.pattern@ == pattern@,
{
    MaskRule { name: owned(name), token: owned(token), pattern: owned(pattern) }
}

/// The default rules, in the order they are applied: e-mail, bearer token,
/// JWT, IPv4, UUID, IPv6, then card numbers (so that UUIDs and IPv6
/// addresses are masked before their digits can look like a card).
pub fn default_rules() -> (r: Vec<MaskRule>)
    ensures
        r@.len() == 7,
        forall|i: int|
            0 <= i < 7 ==> (#[trigger] r@[i].name@, r@[i].token@, r@[i].pattern@) == default_rule(i),
{
    let r = vec![
        rule("email", "<EMAIL>", r"(?i)\b[A-Z0-9._%+-]+@[A-Z0-9.-]+\.[A-Z]{2,}\b"),
        rule("bearer_token", "<BEARER_TOKEN>", r"(?i)\bBearer\s+[A-Za-z0-9._~+/=-]{16,}\b"),
        rule("jwt", "<JWT>", r"\beyJ[A-Za-z0-9_-]+\.[A-Za-z0-9_-]+\.[A-Za-z0-9_-]+\b"),
        rule("ipv4", "<IPV4>", r"\b(?:\d{1,3}\.){3}\d{1,3}\b"),
        rule(
            "uuid",
            "<UUID>",
            r"\b[0-9a-fA-F]{8}-[0-9a-fA-F]{4}-[0-9a-fA-F]{4}-[0-9a-fA-F]{4}-[0-9a-fA-F]{12}\b",
        ),
        rule("ipv6", "<IPV6>", r"\b(?:[0-9a-fA-F]{1,4}:){2,7}[0-9a-fA-F]{1,4}\b"),
        rule("credit_card", "<CREDIT_CARD>", r"\b(?:\d[ -]*?){13,19}\b"),
    ];
    r
}

impl MaskAudit {
    /// The count recorded for a rule name, if that rule masked anything.
    pub fn get(&self, name: &str) -> (r: Option<usize>)
        ensures
            r matches Some(c) ==> exists|i: int|
                0 <= i < self.by_rule@.len() && self.by_rule@[i].0@ == name@ && self.by_rule@[i].1
                    == c,
            r is None ==> forall|i: int|
                0 <= i < self.by_rule@.len() ==> #[trigger] self.by_rule@[i].0@ != name@,
    {
        let mut i: usize = 0;
        while i < self.by_rule.len()
            invariant
                i <= self.by_rule@.len(),
                forall|k: int| 0 <= k < i ==> #[trigger] self.by_rule@[k].0@ != name@,
            decreases self.by_rule.len() - i,
        {
            if str_eq(self.by_rule[i].0.as_str(), name) {
                return Some(self.by_rule[i].1);
            }
            i = i + 1;
        }
        None
    }
}

// ---------------------------------------------------------------------------
// Triplets
// ---------------------------------------------------------------------------

/// The masked prompt and responses of a triplet and the audit over all four
/// texts, masked in order (prompt first) with one shared audit.
pub open spec fn sanitize_spec(rules: Seq<MaskRule>, prompt: Seq<char>, responses: Seq<Seq<char>>) -> (
    Seq<char>,
    Seq<Seq<char>>,
    (nat, Seq<(Seq<char>, nat)>),
) {
    let n = rules.len() as int;
    let (p, a0) = mask_with(rules, n, prompt, empty_audit());
    let (r0, a1) = mask_with(rules, n, responses[0], a0);
    let (r1, a2) = mask_with(rules, n, responses[1], a1);
    let (r2, a3) = mask_with(rules, n, responses[2], a2);
    (p, seq![r0, r1, r2], a3)
}

/// Whether `s` is `t` sanitized with `rules`.
pub open spec fn is_sanitized(rules: Seq<MaskRule>, t: InferenceTriplet, s: SanitizedTriplet) -> bool {
    let (p, rs, a) = sanitize_spec(rules, t.prompt@, t.responses@.map_values(|x: String| x@));
    &&& s.triplet.prompt@ == p
    &&& s.triplet.responses@.map_values(|x: String| x@) == rs
    &&& s.triplet.task_type == t.task_type
    &&& s.triplet.context == t.context
    &&& audit_view(s.audit) == a
}

/// Masks the prompt and the three responses of a triplet with one shared
/// audit. Refuses the rules, naming the first one, when a pattern does not
/// compile.
pub fn sanitize_triplet(triplet: InferenceTriplet, rules: &[MaskRule]) -> (r: Result<SanitizedTriplet, NebulaError>)
    ensures
        r is Ok <==> all_patterns_valid(rules@),
        r matches Ok(s) ==> is_sanitized(rules@, triplet, s),
        r matches Err(e) ==> exists|i: int|
            first_invalid(rules@, i) && (e matches NebulaError::InvalidPattern(n, _) && n@
                == rules@[i].name@),
{
    check_rules(rules)?;
    let mut audit = MaskAudit { total_masked: 0, by_rule: Vec::new() };
    assert(audit_view(audit) =~= empty_audit());
    let prompt = mask_text(triplet.prompt.as_str(), rules, &mut audit);
    let r0 = mask_text(triplet.responses[0].as_str(), rules, &mut audit);
    let r1 = mask_text(triplet.responses[1].as_str(), rules, &mut audit);
    let r2 = mask_text(triplet.responses[2].as_str(), rules, &mut audit);
    let ghost masked = seq![r0@, r1@, r2@];
    let responses = [r0, r1, r2];
    let out = InferenceTriplet {
        prompt,
        task_type: triplet.task_type,
        responses,
        context: triplet.context,
    };
    proof {
        assert(out.responses@.map_values(|x: String| x@) =~= masked);
    }
    Ok(SanitizedTriplet { triplet: out, audit })
}

/// Sanitizes a triplet that arrived on `topic` and forwards it: publishes the
/// masked triplet on `SANITIZED_TOPIC`, then pushes the audit to
/// `PRIVACY_METRIC`. A topic other than `RAW_TOPIC` is refused before
/// anything else; a failing port ends the call with its error.
pub fn handle_raw_triplet<B: EventBus, M: PrivacyMetrics>(
    bus: &mut B,
    metrics: &mut M,
    topic: &str,
    triplet: InferenceTriplet,
    rules: &[MaskRule],
) -> (r: Result<SanitizedTriplet, NebulaError>)
    ensures
        topic@ != RAW_TOPIC@ ==> (r matches Err(NebulaError::UnsupportedTopic(t)) && t@ == topic@),
        topic@ == RAW_TOPIC@ && !all_patterns_valid(rules@) ==> exists|i: int|
            first_invalid(rules@, i) && (r matches Err(NebulaError::InvalidPattern(n, _)) && n@
                == rules@[i].name@),
        r matches Ok(s) ==> topic@ == RAW_TOPIC@ && all_patterns_valid(rules@) && is_sanitized(
            rules@,
            triplet,
            s,
        ),
        !(topic@ == RAW_TOPIC@ && all_patterns_valid(rules@)) ==> *final(bus) == *old(bus)
            && *final(metrics) == *old(metrics),
        topic@ == RAW_TOPIC@ && all_patterns_valid(rules@) ==> exists|s: SanitizedTriplet|
            is_sanitized(rules@, triplet, s) && exists|
                mb: &mut B,
                t: &str,
                sent: &InferenceTriplet,
                x: Result<(), NebulaError>,
            |
                #[trigger] sanitized_published(mb, t, sent, x) && *mb == *old(bus) && *final(mb)
                    == *final(bus) && t@ == SANITIZED_TOPIC@ && *sent == s.triplet && match x {
                    Err(e) => r == Err::<SanitizedTriplet, NebulaError>(e) && *final(metrics)
                        == *old(metrics),
                    Ok(_) => exists|
                        mm: &mut M,
                        metric: &str,
                        audit: &MaskAudit,
                        y: Result<(), NebulaError>,
                    |
                        #[trigger] counts_pushed(mm, metric, audit, y) && *mm == *old(metrics)
                            && *final(mm) == *final(metrics) && metric@ == PRIVACY_METRIC@ && *audit
                            == s.audit && r == (match y {
                            Ok(_) => Ok::<SanitizedTriplet, NebulaError>(s),
                            Err(e) => Err(e),
                        }),
                },
{
    require_topic(topic, RAW_TOPIC)?;
    let sanitized = sanitize_triplet(triplet, rules)?;
    bus.publish(SANITIZED_TOPIC, &sanitized.triplet)?;
    metrics.push_mask_counts(PRIVACY_METRIC, &sanitized.audit)?;
    Ok(sanitized)
}

// ---------------------------------------------------------------------------
// The audit's total
// ---------------------------------------------------------------------------

/// The sum of the per-rule counts.
pub open spec fn sum_counts(by_rule: Seq<(Seq<char>, nat)>) -> nat
    decreases by_rule.len(),
{
    if by_rule.len() == 0 {
        0
    } else {
        by_rule[0].1 + sum_counts(by_rule.drop_first())
    }
}

/// Adding a count to a rule adds it to the sum, when nothing saturates.
proof fn lemma_add_count_sum(by_rule: Seq<(Seq<char>, nat)>, name: Seq<char>, count: nat)
    requires
        sum_counts(by_rule) + count <= usize::MAX,
    ensures
        sum_counts(add_count(by_rule, name, count)) == sum_counts(by_rule) + count,
    decreases by_rule.len(),
{
    if by_rule.len() == 0 {
        let r = seq![(name, count)];
        assert(r.drop_first() =~= Seq::<(Seq<char>, nat)>::empty());
        assert(sum_counts(r) == r[0].1 + sum_counts(r.drop_first()));
        assert(add_count(by_rule, name, count) == r);
    } else if by_rule[0].0 != name && lex_lt(name, by_rule[0].0) {
        let r = seq![(name, count)] + by_rule;
        assert(r.drop_first() =~= by_rule);
        assert(sum_counts(r) == r[0].1 + sum_counts(r.drop_first()));
        assert(add_count(by_rule, name, count) == r);
    } else if by_rule[0].0 == name {
        assert(sum_counts(by_rule) == by_rule[0].1 + sum_counts(by_rule.drop_first()));
        let r = seq![(name, sat_add(by_rule[0].1, count))] + by_rule.drop_first();
        assert(r[0] == (name, (by_rule[0].1 + count) as nat));
        assert(r.drop_first() =~= by_rule.drop_first());
        assert(sum_counts(r) == r[0].1 + sum_counts(r.drop_first()));
        assert(add_count(by_rule, name, count) == r);
    } else {
        assert(sum_counts(by_rule) == by_rule[0].1 + sum_counts(by_rule.drop_first()));
        lemma_add_count_sum(by_rule.drop_first(), name, count);
        let r = seq![by_rule[0]] + add_count(by_rule.drop_first(), name, count);
        assert(r[0] == by_rule[0]);
        assert(r.drop_first() =~= add_count(by_rule.drop_first(), name, count));
        assert(sum_counts(r) == r[0].1 + sum_counts(r.drop_first()));
        assert(add_count(by_rule, name, count) == r);
    }
}

/// An audit's total counts every entity that its rules masked: starting
/// from an audit whose total is the sum of its per-rule counts, masking a
/// text keeps it so, as long as the total does not saturate at `usize::MAX`.
pub proof fn law_audit_total_is_sum_of_counts(
    rules: Seq<MaskRule>,
    n: int,
    text: Seq<char>,
    audit: (nat, Seq<(Seq<char>, nat)>),
)
    requires
        audit.0 == sum_counts(audit.1),
        mask_with(rules, n, text, audit).1.0 < usize::MAX,
    ensures
        mask_with(rules, n, text, audit).1.0 == sum_counts(mask_with(rules, n, text, audit).1.1),
    decreases n,
{
    if n > 0 {
        let (t, a) = mask_with(rules, n - 1, text, audit);
        let r = rules[n - 1];
        let (masked, count) = apply_rule(r.name@, r.token@, r.pattern@, t);
        if count > 0 {
            assert(a.0 + count < usize::MAX);
        }
        law_audit_total_is_sum_of_counts(rules, n - 1, text, audit);
        if count > 0 {
            lemma_add_count_sum(a.1, r.name@, count);
        }
    }
}

} // verus!
