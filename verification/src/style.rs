//! Folding a literal `style={{…}}` object into a static CSS string.

use vstd::prelude::*;

use crate::ast::{Expr, ObjectProp, PropKey};
use crate::constants::{needs_px_suffix, spec_is_unitless};
use crate::text::{is_uppercase_char, lowered_char, to_lower_char, uppercase_char};

verus! {

/// The kebab-case rendering of one camelCase character: an uppercase letter
/// becomes a dash (except at the front) and its lowercase form.
pub open spec fn kebab_char(c: char, first: bool) -> Seq<char> {
    if uppercase_char(c) {
        if first {
            seq![lowered_char(c)]
        } else {
            seq!['-', lowered_char(c)]
        }
    } else {
        seq![c]
    }
}

/// The kebab-case rendering of a camelCase identifier.
pub open spec fn spec_camel_to_kebab(s: Seq<char>) -> Seq<char>
    decreases s.len(),
{
    if s.len() == 0 {
        Seq::empty()
    } else {
        spec_camel_to_kebab(s.drop_last()) + kebab_char(s.last(), s.len() == 1)
    }
}

/// Convert a camelCase identifier to kebab-case.
pub fn camel_to_kebab(s: &str) -> (r: String)
    ensures
        r@ == spec_camel_to_kebab(s@),
{
    let n = s.unicode_len();
    let mut out: Vec<char> = Vec::new();
    let mut i: usize = 0;
    while i < n
        invariant
            0 <= i <= n,
            n == s@.len(),
            out@ == spec_camel_to_kebab(s@.subrange(0, i as int)),
        decreases n - i,
    {
        let c = s.get_char(i);
        if is_uppercase_char(c) {
            if i > 0 {
                out.push('-');
            }
            out.push(to_lower_char(c));
        } else {
            out.push(c);
        }
        proof {
            assert(s@.subrange(0, i + 1).drop_last() =~= s@.subrange(0, i as int));
            assert(s@.subrange(0, i + 1).last() == s@[i as int]);
        }
        i = i + 1;
    }
    proof {
        assert(s@.subrange(0, n as int) =~= s@);
    }
    crate::text::chars_to_string(&out)
}

/// The CSS property name a style key folds to: kebab-case for identifier
/// keys, verbatim for string-literal keys, nothing for computed keys.
pub open spec fn spec_style_key(k: PropKey) -> Option<Seq<char>> {
    match k {
        PropKey::Ident(s) => Some(spec_camel_to_kebab(s@)),
        PropKey::StrKey(s) => Some(s@),
        PropKey::Computed => None,
    }
}

/// The CSS value text a style value folds to, given its property name:
/// string literals verbatim; numeric literals with `px` appended unless the
/// property is unitless or the value is zero; nothing otherwise.
pub open spec fn spec_style_value(v: Expr, key: Seq<char>) -> Option<Seq<char>> {
    match v {
        Expr::StrLit(s) => Some(s@),
        Expr::NumLit { text, is_zero } => Some(
            if !spec_is_unitless(key) && !is_zero {
                text@ + "px"@
            } else {
                text@
            },
        ),
        _ => None,
    }
}

/// The `key: value` text one object entry folds to, or nothing when the
/// entry aborts folding (a spread, a computed key, a non-literal value).
pub open spec fn spec_style_entry(p: ObjectProp) -> Option<Seq<char>> {
    match p {
        ObjectProp::Property { key, value } => match spec_style_key(key) {
            Some(k) => match spec_style_value(value, k) {
                Some(v) => Some(k + ": "@ + v),
                None => None,
            },
            None => None,
        },
        ObjectProp::Spread(_) => None,
    }
}

/// The folded style string of an object: its entries in source order joined
/// by `"; "`, or nothing as soon as any entry aborts.
pub open spec fn spec_fold_style(props: Seq<ObjectProp>) -> Option<Seq<char>>
    decreases props.len(),
{
    if props.len() == 0 {
        Some(Seq::empty())
    } else {
        match spec_fold_style(props.drop_last()) {
            Some(pre) => match spec_style_entry(props.last()) {
                Some(e) => Some(
                    if pre.len() == 0 {
                        e
                    } else {
                        pre + "; "@ + e
                    },
                ),
                None => None,
            },
            None => None,
        }
    }
}

/// One aborting entry aborts the whole fold.
proof fn lemma_fold_style_none(props: Seq<ObjectProp>, i: int)
    requires
        0 <= i < props.len(),
        spec_style_entry(props[i]) is None,
    ensures
        spec_fold_style(props) is None,
    decreases props.len(),
{
    if i == props.len() - 1 {
        assert(props.last() == props[i]);
    } else {
        assert(props.drop_last()[i] == props[i]);
        lemma_fold_style_none(props.drop_last(), i);
    }
}

/// Try to convert a static object expression to a style string.
///
/// The fold is a function of the object alone: repeated calls yield the same
/// string, with properties in source order joined by `"; "`. Folding
/// succeeds exactly when every entry is a literal property.
pub fn object_to_style_string(props: &Vec<ObjectProp>) -> (r: Option<String>)
    ensures
        match r {
            Some(s) => spec_fold_style(props@) == Some(s@),
            None => spec_fold_style(props@) is None,
        },
{
    let mut out: String = String::new();
    let mut i: usize = 0;
    while i < props.len()
        invariant
            0 <= i <= props@.len(),
            spec_fold_style(props@.subrange(0, i as int)) == Some(out@),
        decreases props@.len() - i,
    {
        let entry_key: String;
        let entry_value: String;
        match &props[i] {
            ObjectProp::Property { key, value } => {
                match key {
                    PropKey::Ident(s) => {
                        entry_key = camel_to_kebab(s.as_str());
                    },
                    PropKey::StrKey(s) => {
                        entry_key = s.clone();
                    },
                    PropKey::Computed => {
                        proof {
                            lemma_fold_style_none(props@, i as int);
                        }
                        return None;
                    },
                }
                match value {
                    Expr::StrLit(s) => {
                        entry_value = s.clone();
                    },
                    Expr::NumLit { text, is_zero } => {
                        if needs_px_suffix(entry_key.as_str()) && !*is_zero {
                            let mut v = text.clone();
                            v.append("px");
                            entry_value = v;
                        } else {
                            entry_value = text.clone();
                        }
                    },
                    _ => {
                        proof {
                            lemma_fold_style_none(props@, i as int);
                        }
                        return None;
                    },
                }
            },
            ObjectProp::Spread(_) => {
                proof {
                    lemma_fold_style_none(props@, i as int);
                }
                return None;
            },
        }
        let ghost pre = out@;
        let ghost entry = entry_key@ + ": "@ + entry_value@;
        if out.as_str().unicode_len() > 0 {
            out.append("; ");
        }
        out.append(entry_key.as_str());
        out.append(": ");
        out.append(entry_value.as_str());
        proof {
            assert(props@.subrange(0, i + 1).drop_last() =~= props@.subrange(0, i as int));
            assert(props@.subrange(0, i + 1).last() == props@[i as int]);
            assert(spec_style_entry(props@[i as int]) == Some(entry));
            if pre.len() == 0 {
                assert(out@ =~= entry);
            } else {
                assert(out@ =~= pre + "; "@ + entry);
            }
        }
        i = i + 1;
    }
    proof {
        assert(props@.subrange(0, props@.len() as int) =~= props@);
    }
    Some(out)
}

/// Every-entry-literal objects always fold.
pub proof fn lemma_fold_style_complete(props: Seq<ObjectProp>)
    requires
        forall|i: int| 0 <= i < props.len() ==> (#[trigger] spec_style_entry(props[i])) is Some,
    ensures
        spec_fold_style(props) is Some,
    decreases props.len(),
{
    if props.len() > 0 {
        assert(forall|i: int|
            0 <= i < props.drop_last().len() ==> #[trigger] spec_style_entry(
                props.drop_last()[i],
            ) is Some);
        lemma_fold_style_complete(props.drop_last());
        assert(spec_style_entry(props.last()) is Some);
    }
}

} // verus!
