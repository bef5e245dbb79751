//! Shell commands: the `name`, `short` and `long` arguments that describe a
//! command, and how a command function's parameters are filled from the
//! words it is called with.
//!
//! A parameter marked `#[flag]` is a flag: it is true when `--<name>` is
//! among the words, wherever it stands. The other parameters take, in
//! order, the words that do not begin with `--`: one whose type is an
//! `Option` is `None` when no word is left, any other is required and the
//! command stops when no word is left for it.

use vstd::prelude::*;
use crate::vfs::mount::{begins, begins_with};

verus! {

/// The description of a command.
#[derive(Debug, Clone)]
pub struct CommandArgs {
    pub name: String,
    pub short: String,
    pub long: String,
}

/// How a parameter is filled.
#[derive(Debug, Clone, Copy, PartialEq, Eq, Structural)]
pub enum ParamKind {
    Flag,
    Optional,
    Required,
}

/// A filled parameter: a flag's truth, or the word a positional parameter
/// takes (none when the words ran out).
#[derive(Debug, Clone, PartialEq, Eq)]
pub enum ArgValue {
    Flag(bool),
    Word(Option<String>),
}

/// Whether two strings hold the same characters.
fn same_text(a: &str, b: &str) -> (r: bool)
    ensures
        r == (a@ == b@),
{
    let r = a.unicode_len() == b.unicode_len() && begins_with(a, b);
    proof {
        assert(a@ =~= a@.subrange(0, a@.len() as int));
    }
    r
}

/// The value of the last argument named `key`, if any.
pub open spec fn last_value(pairs: Seq<(Seq<char>, Seq<char>)>, key: Seq<char>) -> Option<Seq<char>>
    decreases pairs.len(),
{
    if pairs.len() == 0 {
        None
    } else if pairs.last().0 == key {
        Some(pairs.last().1)
    } else {
        last_value(pairs.drop_last(), key)
    }
}

/// Whether `key` is one of the three argument names.
pub open spec fn known_key(key: Seq<char>) -> bool {
    key == "name"@ || key == "short"@ || key == "long"@
}

/// The name of the last argument that is not one of the three, if any.
pub open spec fn last_unknown(pairs: Seq<(Seq<char>, Seq<char>)>) -> Option<Seq<char>>
    decreases pairs.len(),
{
    if pairs.len() == 0 {
        None
    } else if !known_key(pairs.last().0) {
        Some(pairs.last().0)
    } else {
        last_unknown(pairs.drop_last())
    }
}

/// The arguments as text.
pub open spec fn pairs_view(pairs: Seq<(String, String)>) -> Seq<(Seq<char>, Seq<char>)> {
    pairs.map_values(|p: (String, String)| (p.0@, p.1@))
}

/// Read the `name = "..", short = "..", long = ".."` arguments of a command,
/// given as (name, value) pairs in order. An argument of another name is
/// refused, the last such name being reported; of an argument given twice
/// the last value counts. Each of the three must be given.
pub fn parse_command_args(pairs: &[(String, String)]) -> (r: Result<CommandArgs, String>)
    requires
        last_unknown(pairs_view(pairs@)) is Some || {
            &&& last_value(pairs_view(pairs@), "name"@) is Some
            &&& last_value(pairs_view(pairs@), "short"@) is Some
            &&& last_value(pairs_view(pairs@), "long"@) is Some
        },
    ensures
        r is Err <==> last_unknown(pairs_view(pairs@)) is Some,
        r matches Err(k) ==> last_unknown(pairs_view(pairs@)) == Some(k@),
        r matches Ok(a) ==> {
            &&& last_value(pairs_view(pairs@), "name"@) == Some(a.name@)
            &&& last_value(pairs_view(pairs@), "short"@) == Some(a.short@)
            &&& last_value(pairs_view(pairs@), "long"@) == Some(a.long@)
        },
{
    let ghost pv = pairs_view(pairs@);
    let mut name: Option<String> = None;
    let mut short: Option<String> = None;
    let mut long: Option<String> = None;
    let mut err: Option<String> = None;
    let mut i: usize = 0;
    while i < pairs.len()
        invariant
            i <= pairs@.len(),
            pv == pairs_view(pairs@),
            pv.len() == pairs@.len(),
            name matches Some(v) ==> last_value(pv.take(i as int), "name"@) == Some(v@),
            name is None ==> last_value(pv.take(i as int), "name"@) is None,
            short matches Some(v) ==> last_value(pv.take(i as int), "short"@) == Some(v@),
            short is None ==> last_value(pv.take(i as int), "short"@) is None,
            long matches Some(v) ==> last_value(pv.take(i as int), "long"@) == Some(v@),
            long is None ==> last_value(pv.take(i as int), "long"@) is None,
            err matches Some(v) ==> last_unknown(pv.take(i as int)) == Some(v@),
            err is None ==> last_unknown(pv.take(i as int)) is None,
        decreases pairs@.len() - i,
    {
        let key = pairs[i].0.as_str();
        let value = pairs[i].1.clone();
        proof {
            reveal_strlit("name");
            reveal_strlit("short");
            reveal_strlit("long");
            assert("name"@[0] != "long"@[0]);
            assert("name"@ != "short"@ && "name"@ != "long"@ && "short"@ != "long"@);
        }
        let ghost t = pv.take(i as int + 1);
        assert(t.drop_last() =~= pv.take(i as int));
        assert(t.last() == pv[i as int]);
        assert(pv[i as int] == (pairs@[i as int].0@, pairs@[i as int].1@));
        if same_text(key, "name") {
            name = Some(value);
        } else if same_text(key, "short") {
            short = Some(value);
        } else if same_text(key, "long") {
            long = Some(value);
        } else {
            err = Some(pairs[i].0.clone());
        }
        i = i + 1;
    }
    assert(pv.take(pairs@.len() as int) =~= pv);
    if let Some(e) = err {
        return Err(e);
    }
    match (name, short, long) {
        (Some(name), Some(short), Some(long)) => Ok(CommandArgs { name, short, long }),
        _ => {
            assert(false);
            Err(String::new())
        },
    }
}

/// Whether a type, given by the segments of its path (none when it is
/// not a path), is an `Option`: its last segment is `Option`.
pub fn is_option(type_path: &[String]) -> (r: bool)
    ensures
        r == (type_path@.len() > 0 && type_path@.last()@ == "Option"@),
{
    if type_path.len() == 0 {
        return false;
    }
    same_text(type_path[type_path.len() - 1].as_str(), "Option")
}

/// The attribute paths, as text.
pub open spec fn texts(v: Seq<String>) -> Seq<Seq<char>> {
    v.map_values(|s: String| s@)
}

/// Whether a parameter's attributes, given by their paths, hold `#[flag]`.
pub fn has_flag_attr(attrs: &[String]) -> (r: bool)
    ensures
        r == texts(attrs@).contains("flag"@),
{
    let mut i: usize = 0;
    while i < attrs.len()
        invariant
            i <= attrs@.len(),
            forall|j: int| 0 <= j < i ==> attrs@[j]@ != "flag"@,
        decreases attrs@.len() - i,
    {
        if same_text(attrs[i].as_str(), "flag") {
            assert(texts(attrs@)[i as int] == "flag"@);
            return true;
        }
        i = i + 1;
    }
    assert forall|j: int| 0 <= j < texts(attrs@).len() implies texts(attrs@)[j] != "flag"@ by {
        assert(texts(attrs@)[j] == attrs@[j]@);
    }
    false
}

/// The attribute paths other than `flag`, in order.
pub open spec fn without_flag(v: Seq<Seq<char>>) -> Seq<Seq<char>>
    decreases v.len(),
{
    if v.len() == 0 {
        v
    } else if v.last() == "flag"@ {
        without_flag(v.drop_last())
    } else {
        without_flag(v.drop_last()).push(v.last())
    }
}

/// Remove every `#[flag]` from a parameter's attributes, keeping the order
/// of the others.
pub fn strip_flag_attr(attrs: &mut Vec<String>)
    ensures
        texts(final(attrs)@) == without_flag(texts(old(attrs)@)),
{
    let ghost a0 = texts(attrs@);
    let mut kept: Vec<String> = Vec::new();
    let mut i: usize = 0;
    while i < attrs.len()
        invariant
            i <= attrs@.len(),
            a0 == texts(attrs@),
            texts(kept@) == without_flag(a0.take(i as int)),
        decreases attrs@.len() - i,
    {
        let ghost t = a0.take(i as int + 1);
        assert(t.drop_last() =~= a0.take(i as int));
        assert(t.last() == attrs@[i as int]@);
        if !same_text(attrs[i].as_str(), "flag") {
            let ghost k0 = kept@;
            kept.push(attrs[i].clone());
            assert(texts(kept@) =~= texts(k0).push(attrs@[i as int]@));
        }
        i = i + 1;
    }
    assert(a0.take(attrs@.len() as int) =~= a0);
    *attrs = kept;
}

/// How a parameter is filled: a flag when it carries `#[flag]`, else
/// optional when its type is an `Option`, else required.
pub fn param_kind(attrs: &[String], type_path: &[String]) -> (r: ParamKind)
    ensures
        r == (if texts(attrs@).contains("flag"@) {
            ParamKind::Flag
        } else if type_path@.len() > 0 && type_path@.last()@ == "Option"@ {
            ParamKind::Optional
        } else {
            ParamKind::Required
        }),
{
    if has_flag_attr(attrs) {
        ParamKind::Flag
    } else if is_option(type_path) {
        ParamKind::Optional
    } else {
        ParamKind::Required
    }
}

/// The word that sets the flag parameter `name`: `--` and the name.
pub fn flag_word(name: &str) -> (r: String)
    ensures
        r@ == seq!['-', '-'] + name@,
{
    let mut r = String::from_str("--");
    proof {
        reveal_strlit("--");
    }
    r.append(name);
    r
}

/// The words a command is called with, as text.
pub open spec fn words_view(args: Seq<&str>) -> Seq<Seq<char>> {
    args.map_values(|a: &str| a@)
}

/// The words that do not begin with `--`, in order.
pub open spec fn positional(words: Seq<Seq<char>>) -> Seq<Seq<char>>
    decreases words.len(),
{
    if words.len() == 0 {
        words
    } else if begins(seq!['-', '-'], words.last()) {
        positional(words.drop_last())
    } else {
        positional(words.drop_last()).push(words.last())
    }
}

/// How many of the first `i` parameters take a word.
pub open spec fn words_taken(kinds: Seq<ParamKind>, i: int) -> int
    decreases i,
{
    if i <= 0 {
        0
    } else {
        words_taken(kinds, i - 1) + if kinds[i - 1] == ParamKind::Flag { 0int } else { 1int }
    }
}

/// The kinds of the parameters.
pub open spec fn kinds_of(params: Seq<(String, ParamKind)>) -> Seq<ParamKind> {
    params.map_values(|p: (String, ParamKind)| p.1)
}

/// Parameter `i` is required and no word is left for it.
pub open spec fn starved(words: Seq<Seq<char>>, params: Seq<(String, ParamKind)>, i: int) -> bool {
    &&& 0 <= i < params.len()
    &&& params[i].1 == ParamKind::Required
    &&& words_taken(kinds_of(params), i) >= positional(words).len()
}

/// The value parameter `i` is filled with.
pub open spec fn filled(words: Seq<Seq<char>>, params: Seq<(String, ParamKind)>, i: int, v: ArgValue) -> bool {
    let pos = positional(words);
    let k = words_taken(kinds_of(params), i);
    if params[i].1 == ParamKind::Flag {
        v == ArgValue::Flag(words.contains(seq!['-', '-'] + params[i].0@))
    } else {
        &&& v is Word
        &&& (v->Word_0 is None <==> k >= pos.len())
        &&& (v->Word_0 matches Some(w) ==> w@ == pos[k])
    }
}

/// Whether `word` is among the words.
fn has_word(args: &[&str], word: &str) -> (r: bool)
    ensures
        r == words_view(args@).contains(word@),
{
    let mut i: usize = 0;
    while i < args.len()
        invariant
            i <= args@.len(),
            forall|j: int| 0 <= j < i ==> args@[j]@ != word@,
        decreases args@.len() - i,
    {
        if same_text(args[i], word) {
            assert(words_view(args@)[i as int] == word@);
            return true;
        }
        i = i + 1;
    }
    assert forall|j: int| 0 <= j < words_view(args@).len() implies words_view(args@)[j] != word@ by {
        assert(words_view(args@)[j] == args@[j]@);
    }
    false
}

/// Fill the parameters `params` (name and kind, in order) from the words
/// `args`; the name of the first required parameter no word is left for
/// when there is one.
pub fn bind_args(args: &[&str], params: &[(String, ParamKind)]) -> (r: Result<Vec<ArgValue>, String>)
    ensures
        r is Err <==> exists|i: int| starved(words_view(args@), params@, i),
        r matches Err(n) ==> exists|i: int| {
            &&& #[trigger] starved(words_view(args@), params@, i)
            &&& forall|j: int| 0 <= j < i ==> !starved(words_view(args@), params@, j)
            &&& n@ == params@[i].0@
        },
        r matches Ok(vs) ==> vs@.len() == params@.len()
            && forall|i: int| 0 <= i < params@.len() ==> filled(words_view(args@), params@, i, #[trigger] vs@[i]),
{
    let ghost wv = words_view(args@);
    let mut pos: Vec<&str> = Vec::new();
    let mut i: usize = 0;
    while i < args.len()
        invariant
            i <= args@.len(),
            wv == words_view(args@),
            words_view(pos@) == positional(wv.take(i as int)),
        decreases args@.len() - i,
    {
        let ghost t = wv.take(i as int + 1);
        assert(t.drop_last() =~= wv.take(i as int));
        assert(t.last() == args@[i as int]@);
        proof {
            reveal_strlit("--");
        }
        assert("--"@ =~= seq!['-', '-']);
        if !begins_with(args[i], "--") {
            let ghost p0 = pos@;
            pos.push(args[i]);
            assert(words_view(pos@) =~= words_view(p0).push(args@[i as int]@));
        }
        i = i + 1;
    }
    assert(wv.take(args@.len() as int) =~= wv);
    let ghost kinds = kinds_of(params@);
    let mut out: Vec<ArgValue> = Vec::new();
    let mut k: usize = 0;
    let mut j: usize = 0;
    while j < params.len()
        invariant
            j <= params@.len(),
            wv == words_view(args@),
            words_view(pos@) == positional(wv),
            kinds == kinds_of(params@),
            k == words_taken(kinds, j as int),
            k <= j,
            out@.len() == j,
            forall|a: int| 0 <= a < j ==> filled(wv, params@, a, #[trigger] out@[a]),
            forall|a: int| 0 <= a < j ==> !starved(wv, params@, a),
        decreases params@.len() - j,
    {
        assert(kinds[j as int] == params@[j as int].1);
        let name = params[j].0.as_str();
        match params[j].1 {
            ParamKind::Flag => {
                let w = flag_word(name);
                let b = has_word(args, w.as_str());
                out.push(ArgValue::Flag(b));
            },
            kind => {
                if k < pos.len() {
                    assert(words_view(pos@)[k as int] == pos@[k as int]@);
                    let w = String::from_str(pos[k]);
                    out.push(ArgValue::Word(Some(w)));
                } else {
                    if kind == ParamKind::Required {
                        assert(starved(wv, params@, j as int));
                        let n = params[j].0.clone();
                        return Err(n);
                    }
                    out.push(ArgValue::Word(None));
                }
                k = k + 1;
            },
        }
        j = j + 1;
    }
    assert forall|i: int| !starved(wv, params@, i) by {
        if 0 <= i < params@.len() {
            assert(!starved(wv, params@, i));
        }
    }
    Ok(out)
}

} // verus!
