//! The AST evaluator: compares the structure of the code in three sampled
//! answers. Each answer's first fenced code block is reduced to its
//! structural features (keywords and punctuation) and hashed; equal hashes
//! mean the answers agree, different ones mean they diverged, and an answer
//! without code or structure falls back to the semantic evaluator.

use vstd::prelude::*;
use crate::error::NebulaError;
use crate::hashing::{sha256_hex, sha256_hex_spec};
use crate::text::{
    chars_of, find_exec, find_from, join, join_strings, owned, push_char, str_eq, string_of,
    string_of_range, views,
};

verus! {

pub const RESULTS_TOPIC: &'static str = "nebula.eval.results";
pub const SEMANTIC_FALLBACK_TOPIC: &'static str = "nebula.eval.semantic.pending";
pub const AST_EVALUATOR_NAME: &'static str = "nebula-eval-ast";
pub const HASH_MISMATCH_REASON: &'static str = "structural hashes differ";

/// Three answers to compare. `context` holds JSON text.
#[derive(Debug, Clone, PartialEq, Eq)]
pub struct AstEvaluationRequest {
    pub prompt: String,
    pub language: String,
    pub responses: [String; 3],
    pub context: String,
}

/// The verdict on three answers. `context` holds JSON text.
#[derive(Debug, Clone, PartialEq, Eq)]
pub struct EvaluationResult {
    pub diverged: bool,
    pub evaluator: String,
    pub reason: String,
    pub prompt: String,
    pub responses: [String; 3],
    pub context: String,
}

/// What the evaluator decided.
#[derive(Debug, Clone, PartialEq, Eq)]
pub enum AstDecision {
    Ignore,
    Diverged(EvaluationResult),
    Fallback(AstEvaluationRequest),
}

/// The registry of tree-sitter grammars compiled to WebAssembly.
pub trait GrammarRegistry {
    fn load_wasm_grammar(&self, language: &str) -> Result<Vec<u8>, NebulaError>;
}

/// Where verdicts and fallbacks go.
pub trait EventBus {
    fn publish_result(&mut self, topic: &str, result: &EvaluationResult) -> Result<(), NebulaError>;

    fn publish_fallback(&mut self, topic: &str, request: &AstEvaluationRequest) -> Result<
        (),
        NebulaError,
    >;
}

/// `load_wasm_grammar`, called on `registry` with `language`, may answer
/// `answer`.
#[verifier::inline]
pub open spec fn grammar_loaded<R: GrammarRegistry>(
    registry: &R,
    language: &str,
    answer: Result<Vec<u8>, NebulaError>,
) -> bool {
    call_ensures(R::load_wasm_grammar, (registry, language), answer)
}

/// `publish_result`, called through `bus` with `topic` and `result`, may
/// answer `answer`.
#[verifier::inline]
pub open spec fn result_published<B: EventBus>(
    bus: &mut B,
    topic: &str,
    result: &EvaluationResult,
    answer: Result<(), NebulaError>,
) -> bool {
    call_ensures(B::publish_result, (bus, topic, result), answer)
}

/// `publish_fallback`, called through `bus` with `topic` and `request`, may
/// answer `answer`.
#[verifier::inline]
pub open spec fn fallback_published<B: EventBus>(
    bus: &mut B,
    topic: &str,
    request: &AstEvaluationRequest,
    answer: Result<(), NebulaError>,
) -> bool {
    call_ensures(B::publish_fallback, (bus, topic, request), answer)
}

// ---------------------------------------------------------------------------
// Code blocks
// ---------------------------------------------------------------------------

/// The body of the first fenced code block of a response: after the first
/// ```` ``` ````, from the next line on, up to the next ```` ``` ````.
pub open spec fn code_block(r: Seq<char>) -> Option<Seq<char>> {
    match find_from(r, "```"@, 0) {
        None => None,
        Some(fs) => {
            let after = r.subrange(fs + 3 as int, r.len() as int);
            let body_start: nat = match find_from(after, "\n"@, 0) {
                Some(k) => k + 1,
                None => 0,
            };
            let body = after.subrange(body_start as int, after.len() as int);
            match find_from(body, "```"@, 0) {
                None => None,
                Some(fe) => Some(body.subrange(0, fe as int)),
            }
        },
    }
}

/// The body of the first fenced code block of a response, if any.
pub fn extract_code_block(response: &str) -> (r: Option<String>)
    ensures
        match code_block(response@) {
            None => r is None,
            Some(c) => r matches Some(s) && s@ == c,
        },
{
    let h = chars_of(response);
    let fence = chars_of("```");
    let newline = chars_of("\n");
    proof {
        reveal_strlit("```");
        reveal_strlit("\n");
        crate::text::lemma_find_from(h@, fence@, 0);
    }
    let fs = match find_exec(&h, &fence, 0) {
        None => return None,
        Some(k) => k,
    };
    assert(fence@.len() == 3);
    assert(crate::text::occurs_at(h@, fence@, fs as int));
    assert(fs + 3 <= h@.len());
    assert(h@.len() == h.len());
    let after = crate::text::subrange_chars(&h, fs + 3, h.len());
    let body_start: usize = match find_exec(&after, &newline, 0) {
        Some(k) => {
            proof {
                crate::text::lemma_find_from(after@, newline@, 0);
            }
            k + 1
        },
        None => 0,
    };
    let body = crate::text::subrange_chars(&after, body_start, after.len());
    proof {
        crate::text::lemma_find_from(body@, fence@, 0);
    }
    match find_exec(&body, &fence, 0) {
        None => None,
        Some(fe) => Some(string_of_range(&body, 0, fe)),
    }
}

// ---------------------------------------------------------------------------
// Structural features
// ---------------------------------------------------------------------------

/// Characters that make up identifiers and keywords.
pub open spec fn is_word_char(c: char) -> bool {
    ('a' <= c <= 'z') || ('A' <= c <= 'Z') || ('0' <= c <= '9') || c == '_'
}

/// Punctuation that counts as structure.
pub open spec fn is_structural_punct(c: char) -> bool {
    c == '{' || c == '}' || c == '(' || c == ')' || c == '[' || c == ']' || c == ';' || c == ','
        || c == '<' || c == '>' || c == '='
}

/// The keywords that count as structure.
pub open spec fn is_keyword(t: Seq<char>) -> bool {
    t == "fn"@ || t == "if"@ || t == "else"@ || t == "match"@ || t == "for"@ || t == "while"@ || t
        == "loop"@ || t == "struct"@ || t == "enum"@ || t == "impl"@ || t == "trait"@ || t
        == "async"@ || t == "await"@ || t == "return"@
}

/// The features with a finished token added when it is a keyword.
pub open spec fn with_token(features: Seq<Seq<char>>, token: Seq<char>) -> Seq<Seq<char>> {
    if token.len() > 0 && is_keyword(token) {
        features.push(token)
    } else {
        features
    }
}

/// The features and the pending token after scanning `code`.
pub open spec fn feature_scan(code: Seq<char>) -> (Seq<Seq<char>>, Seq<char>)
    decreases code.len(),
{
    if code.len() == 0 {
        (Seq::empty(), Seq::empty())
    } else {
        let (features, token) = feature_scan(code.drop_last());
        let c = code.last();
        if is_word_char(c) {
            (features, token.push(c))
        } else {
            let f = with_token(features, token);
            (if is_structural_punct(c) { f.push(seq![c]) } else { f }, Seq::empty())
        }
    }
}

/// The structural features of code, in order: its keywords and its
/// structural punctuation.
pub open spec fn features_of(code: Seq<char>) -> Seq<Seq<char>> {
    let (features, token) = feature_scan(code);
    with_token(features, token)
}

/// Adds the pending token to the features when it is a keyword, and clears it.
pub fn push_token_feature(features: &mut Vec<String>, token: &mut String)
    ensures
        views(final(features)@) == with_token(views(old(features)@), old(token)@),
        final(token)@.len() == 0,
{
    if token.as_str().is_empty() {
        return;
    }
    let t = token.as_str();
    proof {
        reveal_strlit("fn");
        reveal_strlit("if");
        reveal_strlit("else");
        reveal_strlit("match");
        reveal_strlit("for");
        reveal_strlit("while");
        reveal_strlit("loop");
        reveal_strlit("struct");
        reveal_strlit("enum");
        reveal_strlit("impl");
        reveal_strlit("trait");
        reveal_strlit("async");
        reveal_strlit("await");
        reveal_strlit("return");
    }
    let keyword = str_eq(t, "fn") || str_eq(t, "if") || str_eq(t, "else") || str_eq(t, "match")
        || str_eq(t, "for") || str_eq(t, "while") || str_eq(t, "loop") || str_eq(t, "struct")
        || str_eq(t, "enum") || str_eq(t, "impl") || str_eq(t, "trait") || str_eq(t, "async")
        || str_eq(t, "await") || str_eq(t, "return");
    if keyword {
        let ghost before = features@;
        features.push(owned(t));
        proof {
            assert(views(features@) =~= views(before).push(old(token)@));
        }
    }
    *token = String::new();
}

/// The structural features of code.
pub fn structural_features(code: &str) -> (features: Vec<String>)
    ensures
        views(features@) == features_of(code@),
{
    let chars = chars_of(code);
    let mut features: Vec<String> = Vec::new();
    let mut token = String::new();
    let mut i: usize = 0;
    while i < chars.len()
        invariant
            i <= chars@.len(),
            chars@ == code@,
            (views(features@), token@) == feature_scan(chars@.take(i as int)),
        decreases chars.len() - i,
    {
        let c = chars[i];
        proof {
            let t = chars@.take(i + 1);
            assert(t.drop_last() =~= chars@.take(i as int));
            assert(t.last() == c);
        }
        if ('a' <= c && c <= 'z') || ('A' <= c && c <= 'Z') || ('0' <= c && c <= '9') || c == '_' {
            push_char(&mut token, c);
        } else {
            push_token_feature(&mut features, &mut token);
            if c == '{' || c == '}' || c == '(' || c == ')' || c == '[' || c == ']' || c == ';' || c
                == ',' || c == '<' || c == '>' || c == '=' {
                let mut p = String::new();
                push_char(&mut p, c);
                let ghost before = features@;
                features.push(p);
                proof {
                    assert(p@ =~= seq![c]);
                    assert(views(features@) =~= views(before).push(seq![c]));
                }
            }
            proof {
                assert(token@ =~= Seq::<char>::empty());
            }
        }
        i = i + 1;
    }
    assert(chars@.take(chars@.len() as int) =~= chars@);
    push_token_feature(&mut features, &mut token);
    features
}

/// Whether `t` is a non-empty identifier that is not a keyword.
pub open spec fn is_plain_identifier(t: Seq<char>) -> bool {
    &&& t.len() > 0
    &&& forall|i: int| 0 <= i < t.len() ==> is_word_char(#[trigger] t[i])
    &&& !is_keyword(t)
}

/// Scanning word characters only extends the pending token.
proof fn lemma_scan_word_chars(p: Seq<char>, w: Seq<char>)
    requires
        forall|i: int| 0 <= i < w.len() ==> is_word_char(#[trigger] w[i]),
    ensures
        feature_scan(p + w) == (feature_scan(p).0, feature_scan(p).1 + w),
    decreases w.len(),
{
    if w.len() == 0 {
        assert(p + w =~= p);
        assert(feature_scan(p).1 + w =~= feature_scan(p).1);
    } else {
        let v = w.drop_last();
        assert forall|i: int| 0 <= i < v.len() implies is_word_char(#[trigger] v[i]) by {
            assert(v[i] == w[i]);
        }
        lemma_scan_word_chars(p, v);
        assert((p + w).drop_last() =~= p + v);
        assert((p + w).last() == w.last());
        assert(is_word_char(w[w.len() - 1]));
        assert((feature_scan(p).1 + v).push(w.last()) =~= feature_scan(p).1 + w);
    }
}

/// Two scan states that agree once their pending tokens are flushed agree
/// after any text that starts with a character outside identifiers.
proof fn lemma_scan_after_break(x: Seq<char>, y: Seq<char>, q: Seq<char>)
    requires
        feature_scan(x).0 == feature_scan(y).0,
        with_token(feature_scan(x).0, feature_scan(x).1) == with_token(
            feature_scan(y).0,
            feature_scan(y).1,
        ),
        q.len() > 0,
        !is_word_char(q[0]),
    ensures
        feature_scan(x + q) == feature_scan(y + q),
    decreases q.len(),
{
    if q.len() == 1 {
        assert((x + q).drop_last() =~= x);
        assert((y + q).drop_last() =~= y);
        assert((x + q).last() == q[0]);
        assert((y + q).last() == q[0]);
    } else {
        let v = q.drop_last();
        assert(v[0] == q[0]);
        lemma_scan_after_break(x, y, v);
        assert((x + q).drop_last() =~= x + v);
        assert((y + q).drop_last() =~= y + v);
        assert((x + q).last() == q.last());
        assert((y + q).last() == q.last());
    }
}

/// Renaming an identifier leaves the structural features unchanged: in code
/// `p + a + q`, where `a` is a whole identifier (nothing of an identifier
/// touches it on either side) and not a keyword, putting any other such
/// identifier `b` in its place gives the same features.
pub proof fn law_renaming_keeps_features(p: Seq<char>, a: Seq<char>, b: Seq<char>, q: Seq<char>)
    requires
        p.len() == 0 || !is_word_char(p.last()),
        q.len() == 0 || !is_word_char(q[0]),
        is_plain_identifier(a),
        is_plain_identifier(b),
    ensures
        features_of(p + a + q) == features_of(p + b + q),
{
    lemma_scan_word_chars(p, a);
    lemma_scan_word_chars(p, b);
    if p.len() > 0 {
        assert(p =~= p.drop_last().push(p.last()));
        assert(feature_scan(p).1 == Seq::<char>::empty());
    } else {
        assert(feature_scan(p).1 == Seq::<char>::empty());
    }
    assert(feature_scan(p).1 + a =~= a);
    assert(feature_scan(p).1 + b =~= b);
    if q.len() == 0 {
        assert(p + a + q =~= p + a);
        assert(p + b + q =~= p + b);
    } else {
        lemma_scan_after_break(p + a, p + b, q);
    }
}

/// Renaming an identifier in a response's code block leaves its structural
/// hash unchanged.
pub proof fn law_renaming_keeps_hash(
    r1: Seq<char>,
    r2: Seq<char>,
    p: Seq<char>,
    a: Seq<char>,
    b: Seq<char>,
    q: Seq<char>,
)
    requires
        p.len() == 0 || !is_word_char(p.last()),
        q.len() == 0 || !is_word_char(q[0]),
        is_plain_identifier(a),
        is_plain_identifier(b),
        code_block(r1) == Some(p + a + q),
        code_block(r2) == Some(p + b + q),
    ensures
        hash_of(r1) == hash_of(r2),
{
    law_renaming_keeps_features(p, a, b, q);
}

/// The structural hash of a response, if it has a code block with structure:
/// the hex SHA-256 of its features joined by `|`.
pub open spec fn hash_of(response: Seq<char>) -> Option<Seq<char>> {
    match code_block(response) {
        None => None,
        Some(code) => if features_of(code).len() == 0 {
            None
        } else {
            Some(sha256_hex_spec(join(features_of(code), "|"@)))
        },
    }
}

/// The structural hash of a response. A response without a fenced code
/// block is refused with `NoCodeBlock`; a block without structure, with
/// `NoStructuralFeatures`.
pub fn structural_hash(response: &str) -> (r: Result<String, NebulaError>)
    ensures
        code_block(response@) is None ==> r == Err::<String, NebulaError>(NebulaError::NoCodeBlock),
        code_block(response@) is Some && hash_of(response@) is None ==> r == Err::<
            String,
            NebulaError,
        >(NebulaError::NoStructuralFeatures),
        hash_of(response@) matches Some(h) ==> (r matches Ok(s) && s@ == h),
{
    let code = match extract_code_block(response) {
        None => return Err(NebulaError::NoCodeBlock),
        Some(c) => c,
    };
    let features = structural_features(code.as_str());
    if features.len() == 0 {
        return Err(NebulaError::NoStructuralFeatures);
    }
    let joined = join_strings(&features, "|");
    Ok(sha256_hex(joined.as_str()))
}

/// The structural hashes of three responses, or the first response's error.
pub fn structural_hashes(responses: &[String; 3]) -> (r: Result<[String; 3], NebulaError>)
    ensures
        r is Ok <==> (hash_of(responses@[0]@) is Some && hash_of(responses@[1]@) is Some && hash_of(
            responses@[2]@,
        ) is Some),
        r matches Ok(h) ==> forall|k: int|
            0 <= k < 3 ==> hash_of(responses@[k]@) == Some((#[trigger] h@[k])@),
{
    let a = structural_hash(responses[0].as_str())?;
    let b = structural_hash(responses[1].as_str())?;
    let c = structural_hash(responses[2].as_str())?;
    let hashes = [a, b, c];
    assert(hashes@[0] == a && hashes@[1] == b && hashes@[2] == c);
    Ok(hashes)
}

// ---------------------------------------------------------------------------
// Decisions
// ---------------------------------------------------------------------------

/// The decision on a request: fall back when a response has no structural
/// hash; ignore when the three hashes agree; otherwise report divergence with
/// the request's prompt, answers and context.
pub open spec fn is_decision_for(request: AstEvaluationRequest, d: AstDecision) -> bool {
    let h0 = hash_of(request.responses@[0]@);
    let h1 = hash_of(request.responses@[1]@);
    let h2 = hash_of(request.responses@[2]@);
    if h0 is None || h1 is None || h2 is None {
        d == AstDecision::Fallback(request)
    } else if h0 == h1 && h0 == h2 {
        d == AstDecision::Ignore
    } else {
        d matches AstDecision::Diverged(res) && res.diverged && res.evaluator@
            == AST_EVALUATOR_NAME@ && res.reason@ == HASH_MISMATCH_REASON@ && res.prompt
            == request.prompt && res.responses == request.responses && res.context
            == request.context
    }
}

/// Loads the request language's grammar, then decides on the request. Only a
/// failing registry makes it fail.
pub fn evaluate<R: GrammarRegistry>(registry: &R, request: AstEvaluationRequest) -> (r: Result<
    AstDecision,
    NebulaError,
>)
    ensures
        exists|language: &str, grammar: Result<Vec<u8>, NebulaError>|
            #[trigger] grammar_loaded(registry, language, grammar) && language@ == request.language@
                && match grammar {
                Err(e) => r == Err::<AstDecision, NebulaError>(e),
                Ok(_) => r matches Ok(d) && is_decision_for(request, d),
            },
{
    let _grammar_wasm = registry.load_wasm_grammar(request.language.as_str())?;
    let hashes = match structural_hashes(&request.responses) {
        Ok(h) => h,
        Err(_) => return Ok(AstDecision::Fallback(request)),
    };
    if str_eq(hashes[1].as_str(), hashes[0].as_str()) && str_eq(
        hashes[2].as_str(),
        hashes[0].as_str(),
    ) {
        return Ok(AstDecision::Ignore);
    }
    Ok(
        AstDecision::Diverged(
            EvaluationResult {
                diverged: true,
                evaluator: owned(AST_EVALUATOR_NAME),
                reason: owned(HASH_MISMATCH_REASON),
                prompt: request.prompt,
                responses: request.responses,
                context: request.context,
            },
        ),
    )
}

/// Decides on the request and publishes the outcome: a divergence on
/// `RESULTS_TOPIC`, a fallback on `SEMANTIC_FALLBACK_TOPIC`, nothing when the
/// answers agree.
pub fn evaluate_and_publish<B: EventBus, R: GrammarRegistry>(
    bus: &mut B,
    registry: &R,
    request: AstEvaluationRequest,
) -> (r: Result<AstDecision, NebulaError>)
    ensures
        exists|language: &str, grammar: Result<Vec<u8>, NebulaError>|
            #[trigger] grammar_loaded(registry, language, grammar) && language@ == request.language@
                && match grammar {
                Err(e) => r == Err::<AstDecision, NebulaError>(e) && *final(bus) == *old(bus),
                Ok(_) => exists|d: AstDecision|
                    is_decision_for(request, d) && match d {
                        AstDecision::Ignore => r == Ok::<AstDecision, NebulaError>(d) && *final(bus)
                            == *old(bus),
                        AstDecision::Diverged(res) => exists|
                            m: &mut B,
                            topic: &str,
                            sent: &EvaluationResult,
                            x: Result<(), NebulaError>,
                        |
                            #[trigger] result_published(m, topic, sent, x) && *m == *old(bus)
                                && *final(m) == *final(bus) && topic@ == RESULTS_TOPIC@ && *sent
                                == res && r == (match x {
                                Ok(_) => Ok::<AstDecision, NebulaError>(d),
                                Err(e) => Err(e),
                            }),
                        AstDecision::Fallback(req) => exists|
                            m: &mut B,
                            topic: &str,
                            sent: &AstEvaluationRequest,
                            x: Result<(), NebulaError>,
                        |
                            #[trigger] fallback_published(m, topic, sent, x) && *m == *old(bus)
                                && *final(m) == *final(bus) && topic@ == SEMANTIC_FALLBACK_TOPIC@
                                && *sent == req && r == (match x {
                                Ok(_) => Ok::<AstDecision, NebulaError>(d),
                                Err(e) => Err(e),
                            }),
                    },
            },
{
    let decision = evaluate(registry, request)?;
    match &decision {
        AstDecision::Diverged(result) => bus.publish_result(RESULTS_TOPIC, result)?,
        AstDecision::Fallback(req) => bus.publish_fallback(SEMANTIC_FALLBACK_TOPIC, req)?,
        AstDecision::Ignore => {},
    }
    Ok(decision)
}

} // verus!
