//! Normalization of captured output: placeholder expansion, literal byte
//! replacement and regular-expression replacement.

use vstd::prelude::*;
use vstd::utf8::{decode_utf8, encode_utf8, valid_utf8};
use crate::text::replace_bytes;
use crate::text::{lemma_replace_all_without_match, occurs_at, replace_all};
use super::{NormalizationKind, NormalizationRule, NormalizationTarget};
use super::paths::{expand_placeholder_values, expand_placeholders, forward_slashes, path_string_with_forward_slashes};
use super::regex_support::{regex_compile_outcome, regex_escape, regex_escaped, regex_replace, regex_replace_all};

verus! {

/// The paths a normalization pattern may name, as displayed strings.
#[derive(Clone, Debug)]
pub struct NormalizationContext {
    pub executable: String,
    pub working_directory: String,
    pub repo_root: String,
    pub script_path: String,
    pub temp_directory: Option<String>,
}

/// What `String::from_utf8_lossy` gives for `bytes`.
pub uninterp spec fn lossy_utf8(bytes: Seq<u8>) -> Seq<char>;

/// `std::str::from_utf8`: the text of `bytes` when they are valid UTF-8.
///
/// Trusted wrapper; the contract states the documented behaviour (an error
/// exactly when the bytes are not UTF-8) over vstd's UTF-8 definitions.
#[verifier::external_body]
pub(crate) fn utf8_text(bytes: &[u8]) -> (r: Option<String>)
    ensures
        (r is Some) == valid_utf8(bytes@),
        r matches Some(s) ==> s@ == decode_utf8(bytes@),
{
    std::str::from_utf8(bytes).ok().map(|text| text.to_owned())
}

/// `String::from_utf8_lossy`: the text of `bytes`, with each invalid sequence
/// replaced by U+FFFD. The contract names the result and states that valid
/// UTF-8 is decoded unchanged.
#[verifier::external_body]
pub(crate) fn lossy_text(bytes: &[u8]) -> (r: String)
    ensures
        r@ == lossy_utf8(bytes@),
        valid_utf8(bytes@) ==> r@ == decode_utf8(bytes@),
{
    String::from_utf8_lossy(bytes).into_owned()
}

/// Placeholder values of `ctx`, in placeholder order, before escaping.
pub open spec fn raw_values(ctx: NormalizationContext) -> Seq<Seq<char>> {
    let temp = match ctx.temp_directory {
        Some(t) => t@,
        None => Seq::empty(),
    };
    seq![
        ctx.executable@,
        forward_slashes(ctx.executable@),
        ctx.working_directory@,
        forward_slashes(ctx.working_directory@),
        ctx.repo_root@,
        forward_slashes(ctx.repo_root@),
        ctx.script_path@,
        forward_slashes(ctx.script_path@),
        temp,
        forward_slashes(temp),
    ]
}

/// Placeholder values of `ctx`, regex-escaped when `escape` holds.
pub open spec fn template_values(ctx: NormalizationContext, escape: bool) -> Seq<Seq<char>> {
    if escape {
        raw_values(ctx).map_values(|v: Seq<char>| regex_escaped(v))
    } else {
        raw_values(ctx)
    }
}

/// `template` with every placeholder replaced by its value in `ctx`.
pub open spec fn expanded_template(
    template: Seq<char>,
    ctx: NormalizationContext,
    escape: bool,
) -> Seq<char> {
    expand_placeholders(template, template_values(ctx, escape), 10)
}

/// Whether a rule aimed at `rule_target` applies to `target`.
pub open spec fn rule_applies(rule_target: NormalizationTarget, target: NormalizationTarget) -> bool {
    rule_target == target || (rule_target == NormalizationTarget::Both && target
        != NormalizationTarget::SideEffectPath)
}

/// The bytes after applying one rule.
pub open spec fn apply_rule(bytes: Seq<u8>, rule: NormalizationRule, ctx: NormalizationContext) -> Seq<
    u8,
> {
    match rule.kind {
        NormalizationKind::Literal => replace_all(
            bytes,
            encode_utf8(expanded_template(rule.pattern@, ctx, false)),
            encode_utf8(rule.replacement@),
        ),
        NormalizationKind::Regex => if !valid_utf8(bytes) {
            bytes
        } else {
            let pattern = expanded_template(rule.pattern@, ctx, true);
            if regex_compile_outcome(pattern) is Some {
                bytes
            } else {
                encode_utf8(regex_replace_all(pattern, decode_utf8(bytes), rule.replacement@))
            }
        },
    }
}

/// The bytes after applying, in order, those of the first `n` rules that
/// apply to `target`.
pub open spec fn normalized_bytes(
    bytes: Seq<u8>,
    rules: Seq<NormalizationRule>,
    target: NormalizationTarget,
    ctx: NormalizationContext,
    n: int,
) -> Seq<u8>
    decreases n,
{
    if n <= 0 {
        bytes
    } else {
        let prev = normalized_bytes(bytes, rules, target, ctx, n - 1);
        if rule_applies(rules[n - 1].target, target) {
            apply_rule(prev, rules[n - 1], ctx)
        } else {
            prev
        }
    }
}

/// Rules aimed at other targets leave the bytes unchanged: normalization is
/// targeted.
pub proof fn lemma_untargeted_rules_keep_bytes(
    bytes: Seq<u8>,
    rules: Seq<NormalizationRule>,
    target: NormalizationTarget,
    ctx: NormalizationContext,
    n: int,
)
    requires
        forall|k: int| 0 <= k < n ==> !rule_applies(#[trigger] rules[k].target, target),
    ensures
        normalized_bytes(bytes, rules, target, ctx, n) == bytes,
    decreases n,
{
    if n > 0 {
        lemma_untargeted_rules_keep_bytes(bytes, rules, target, ctx, n - 1);
    }
}

/// A literal rule whose expanded pattern never occurs in the bytes leaves
/// every byte in place, whatever the bytes are (valid UTF-8 or not).
pub proof fn lemma_literal_rule_without_match_keeps_bytes(
    bytes: Seq<u8>,
    rule: NormalizationRule,
    ctx: NormalizationContext,
)
    requires
        rule.kind == NormalizationKind::Literal,
        forall|i: int| !occurs_at(bytes, encode_utf8(expanded_template(rule.pattern@, ctx, false)), i),
    ensures
        apply_rule(bytes, rule, ctx) == bytes,
{
    lemma_replace_all_without_match(
        bytes,
        encode_utf8(expanded_template(rule.pattern@, ctx, false)),
        encode_utf8(rule.replacement@),
    );
}

/// Expand the placeholders of `template` with the paths of `ctx`, escaping
/// each value as a regular-expression literal when `regex_escape` holds.
pub fn expand_template(template: &str, ctx: &NormalizationContext, regex_escape_values: bool) -> (r: String)
    ensures
        r@ == expanded_template(template@, *ctx, regex_escape_values),
{
    let temp = match &ctx.temp_directory {
        Some(t) => t.clone(),
        None => String::new(),
    };
    let mut raw: Vec<String> = Vec::new();
    raw.push(ctx.executable.clone());
    raw.push(path_string_with_forward_slashes(ctx.executable.as_str()));
    raw.push(ctx.working_directory.clone());
    raw.push(path_string_with_forward_slashes(ctx.working_directory.as_str()));
    raw.push(ctx.repo_root.clone());
    raw.push(path_string_with_forward_slashes(ctx.repo_root.as_str()));
    raw.push(ctx.script_path.clone());
    raw.push(path_string_with_forward_slashes(ctx.script_path.as_str()));
    let temp_slash = path_string_with_forward_slashes(temp.as_str());
    raw.push(temp);
    raw.push(temp_slash);
    proof {
        assert(raw@.map_values(|v: String| v@) =~= raw_values(*ctx));
    }
    let mut values: Vec<String> = Vec::new();
    let mut k: usize = 0;
    while k < 10
        invariant
            raw@.len() == 10,
            raw@.map_values(|v: String| v@) == raw_values(*ctx),
            k <= 10,
            values@.len() == k,
            forall|j: int|
                0 <= j < k ==> (#[trigger] values@[j])@ == template_values(*ctx, regex_escape_values)[j],
        decreases 10 - k,
    {
        assert(raw@[k as int]@ == raw_values(*ctx)[k as int]);
        if regex_escape_values {
            values.push(regex_escape(raw[k].as_str()));
        } else {
            values.push(raw[k].clone());
        }
        k += 1;
    }
    proof {
        assert(values@.map_values(|v: String| v@) =~= template_values(*ctx, regex_escape_values));
    }
    expand_placeholder_values(template, &values)
}

/// Apply one normalization rule to `bytes`.
fn apply_one(bytes: Vec<u8>, rule: &NormalizationRule, ctx: &NormalizationContext) -> (r: Vec<u8>)
    ensures
        r@ == apply_rule(bytes@, *rule, *ctx),
{
    match rule.kind {
        NormalizationKind::Literal => {
            let pattern = expand_template(rule.pattern.as_str(), ctx, false);
            replace_bytes(bytes.as_slice(), pattern.as_str().as_bytes(), rule.replacement.as_str().as_bytes())
        },
        NormalizationKind::Regex => {
            let text = match utf8_text(bytes.as_slice()) {
                Some(text) => text,
                None => {
                    return bytes;
                },
            };
            let pattern = expand_template(rule.pattern.as_str(), ctx, true);
            match regex_replace(pattern.as_str(), text.as_str(), rule.replacement.as_str()) {
                Some(out) => out.as_str().as_bytes_vec(),
                None => bytes,
            }
        },
    }
}

/// Apply, in order, every rule of `rules` that applies to `target`.
pub fn normalize_bytes(
    bytes: &[u8],
    rules: &Vec<NormalizationRule>,
    target: NormalizationTarget,
    ctx: &NormalizationContext,
) -> (r: Vec<u8>)
    ensures
        r@ == normalized_bytes(bytes@, rules@, target, *ctx, rules@.len() as int),
{
    let mut result = vstd::slice::slice_to_vec(bytes);
    let n = rules.len();
    let mut k: usize = 0;
    while k < n
        invariant
            n == rules@.len(),
            k <= n,
            result@ == normalized_bytes(bytes@, rules@, target, *ctx, k as int),
        decreases n - k,
    {
        let rule = &rules[k];
        let applies = rule.target == target || (rule.target == NormalizationTarget::Both && target
            != NormalizationTarget::SideEffectPath);
        if applies {
            result = apply_one(result, rule, ctx);
        }
        k += 1;
    }
    result
}

/// Normalize text: normalize its UTF-8 bytes and decode them lossily.
pub fn normalize_text(
    text: &str,
    rules: &Vec<NormalizationRule>,
    target: NormalizationTarget,
    ctx: &NormalizationContext,
) -> (r: String)
    ensures
        r@ == lossy_utf8(
            normalized_bytes(encode_utf8(text@), rules@, target, *ctx, rules@.len() as int),
        ),
{
    let bytes = normalize_bytes(text.as_bytes(), rules, target, ctx);
    lossy_text(bytes.as_slice())
}

} // verus!
