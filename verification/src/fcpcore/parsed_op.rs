//! Parsing an FCP operation string into its verb, positionals, `key:value`
//! parameters and `@` selectors.
use vstd::prelude::*;
use crate::fcpcore::tokenizer::{
    tokenize, tokens_of_text, string_views, is_selector, is_key_value, parse_key_value_with_meta,
    is_selector_text, is_key_value_text, key_of, raw_value_of, strip_quotes_text, is_quoted_text,
};
use crate::text::{trim, trimmed, to_lowercase, lowercase_of};
use crate::text_map::{TextMap, text_values};

verus! {

/// A successfully parsed FCP operation.
#[derive(Debug, Clone)]
pub struct ParsedOp {
    /// The first token, in lower case.
    pub verb: String,
    /// The tokens after the verb that are neither selectors nor `key:value`
    /// pairs, in order.
    pub positionals: Vec<String>,
    /// The `key:value` pairs (quotes stripped); a later key replaces an earlier one.
    pub params: TextMap<String>,
    /// The `@` selector tokens, in order.
    pub selectors: Vec<String>,
    /// The keys whose value was quoted somewhere in the operation.
    pub quoted_params: TextMap<bool>,
    /// The operation string with surrounding whitespace removed.
    pub raw: String,
}

/// An error from parsing an FCP operation.
#[derive(Debug, Clone)]
pub struct ParseError {
    pub error: String,
    pub raw: String,
}

/// The result of parsing an FCP operation string.
pub type ParseResult = Result<ParsedOp, ParseError>;

/// What the tokens after the verb amount to: positionals, parameters, selectors
/// and the keys whose value was quoted.
pub struct OpParts {
    pub positionals: Seq<Seq<char>>,
    pub params: Map<Seq<char>, Seq<char>>,
    pub selectors: Seq<Seq<char>>,
    pub quoted: Map<Seq<char>, bool>,
}

/// The classification of the argument tokens `toks`, read left to right:
/// selectors are kept in order, `key:value` tokens set their key (and mark it
/// quoted when their value was quoted), and everything else is a positional.
pub open spec fn classify(toks: Seq<Seq<char>>) -> OpParts
    decreases toks.len(),
{
    if toks.len() == 0 {
        OpParts {
            positionals: seq![],
            params: Map::empty(),
            selectors: seq![],
            quoted: Map::empty(),
        }
    } else {
        let r = classify(toks.drop_last());
        let t = toks.last();
        if is_selector_text(t) {
            OpParts { selectors: r.selectors.push(t), ..r }
        } else if is_key_value_text(t) {
            OpParts {
                params: r.params.insert(key_of(t), strip_quotes_text(raw_value_of(t))),
                quoted: if is_quoted_text(raw_value_of(t)) {
                    r.quoted.insert(key_of(t), true)
                } else {
                    r.quoted
                },
                ..r
            }
        } else {
            OpParts { positionals: r.positionals.push(t), ..r }
        }
    }
}

/// `op` is the parse of the tokens `toks` (which are not empty) of the
/// trimmed operation text `raw`.
pub open spec fn parsed_from(op: ParsedOp, raw: Seq<char>, toks: Seq<Seq<char>>) -> bool {
    let parts = classify(toks.drop_first());
    &&& op.verb@ == lowercase_of(toks[0])
    &&& string_views(op.positionals@) == parts.positionals
    &&& text_values(op.params@) == parts.params
    &&& string_views(op.selectors@) == parts.selectors
    &&& op.quoted_params@ == parts.quoted
    &&& op.raw@ == raw
}

/// Parses an FCP operation string into a structured `ParsedOp`.
///
/// The string is trimmed and tokenized; an operation with no tokens is an
/// error (`"empty operation"`). Otherwise the first token, lower-cased, is the
/// verb and the rest are classified as selectors, parameters or positionals.
pub fn parse_op(input: &str) -> (r: ParseResult)
    ensures
        ({
            let raw = trimmed(input@);
            let toks = tokens_of_text(raw);
            match r {
                Ok(op) => toks.len() > 0 && parsed_from(op, raw, toks),
                Err(e) => toks.len() == 0 && e.error@ == "empty operation"@ && e.raw@ == raw,
            }
        }),
{
    let raw = String::from_str(trim(input));
    let tokens = tokenize(raw.as_str());
    let ghost toks = string_views(tokens@);
    assert(toks.len() == tokens@.len());
    if tokens.len() == 0 {
        return Err(ParseError { error: String::from_str("empty operation"), raw });
    }
    let verb = to_lowercase(tokens[0].as_str());
    let mut positionals: Vec<String> = Vec::new();
    let mut params: TextMap<String> = TextMap::new();
    let mut selectors: Vec<String> = Vec::new();
    let mut quoted_params: TextMap<bool> = TextMap::new();
    let ghost args = toks.drop_first();
    let mut i: usize = 1;
    assert(args.take(0) =~= Seq::<Seq<char>>::empty());
    assert(text_values(params@) =~= Map::<Seq<char>, Seq<char>>::empty());
    assert(string_views(positionals@) =~= Seq::<Seq<char>>::empty());
    assert(string_views(selectors@) =~= Seq::<Seq<char>>::empty());
    while i < tokens.len()
        invariant
            1 <= i <= tokens@.len(),
            toks == string_views(tokens@),
            args == toks.drop_first(),
            ({
                let parts = classify(args.take(i - 1));
                &&& string_views(positionals@) == parts.positionals
                &&& text_values(params@) == parts.params
                &&& string_views(selectors@) == parts.selectors
                &&& quoted_params@ == parts.quoted
            }),
        decreases tokens@.len() - i,
    {
        let ghost t = toks[i as int];
        assert(args.take(i as int).drop_last() =~= args.take(i - 1));
        assert(args.take(i as int).last() == t);
        let ghost prev = classify(args.take(i - 1));
        let token = &tokens[i];
        if is_selector(token.as_str()) {
            selectors.push(token.clone());
            assert(string_views(selectors@) =~= prev.selectors.push(t));
        } else if is_key_value(token.as_str()) {
            let (key, value, was_quoted) = parse_key_value_with_meta(token.as_str());
            let ghost pv = params@;
            params.insert(key.clone(), value);
            assert(text_values(params@) =~= text_values(pv).insert(key_of(t), strip_quotes_text(raw_value_of(t))));
            if was_quoted {
                quoted_params.insert(key, true);
            }
        } else {
            positionals.push(token.clone());
            assert(string_views(positionals@) =~= prev.positionals.push(t));
        }
        i += 1;
    }
    assert(args.take(tokens@.len() - 1) =~= args);
    Ok(ParsedOp { verb, positionals, params, selectors, quoted_params, raw })
}

} // verus!
