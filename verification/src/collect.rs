//! The collector: which variables are kept, and under which names.

use crate::env_map::{lemma_map_of_names, map_of, EnvMap, Pairs};
use crate::text::starts_with;
use vstd::prelude::*;

verus! {

/// Whether a variable called `name` is kept under `prefix`: always without a
/// prefix, else when `name` begins with it.
pub open spec fn retained(name: Seq<char>, prefix: Option<Seq<char>>) -> bool {
    match prefix {
        None => true,
        Some(p) => p.is_prefix_of(name),
    }
}

/// The name under which a kept variable is stored: `name` without the prefix
/// when stripping is asked for and `name` begins with the prefix, else `name`
/// unchanged.
pub open spec fn stored_name(
    name: Seq<char>,
    prefix: Option<Seq<char>>,
    strip: bool,
) -> Seq<char> {
    match prefix {
        None => name,
        Some(p) => if strip && p.is_prefix_of(name) {
            name.skip(p.len() as int)
        } else {
            name
        },
    }
}

/// The mapping collected from `env`: the kept variables are inserted in
/// order under their stored names, a later one replacing an earlier one of
/// the same stored name.
pub open spec fn collected(
    env: Pairs,
    prefix: Option<Seq<char>>,
    strip: bool,
) -> Map<Seq<char>, Seq<char>>
    decreases env.len(),
{
    if env.len() == 0 {
        Map::empty()
    } else {
        let earlier = collected(env.drop_last(), prefix, strip);
        if retained(env.last().0, prefix) {
            earlier.insert(stored_name(env.last().0, prefix, strip), env.last().1)
        } else {
            earlier
        }
    }
}

/// Without a prefix every variable is kept under its own name.
pub proof fn lemma_collect_without_prefix(env: Pairs, strip: bool)
    ensures
        collected(env, None, strip) == map_of(env),
    decreases env.len(),
{
    if env.len() > 0 {
        lemma_collect_without_prefix(env.drop_last(), strip);
    }
}

/// Without stripping, the collected mapping is the environment restricted to
/// the names that begin with the prefix: same names, same values.
pub proof fn lemma_collect_unstripped(env: Pairs, prefix: Seq<char>)
    ensures
        collected(env, Some(prefix), false) == map_of(env).restrict(
            Set::new(|name: Seq<char>| prefix.is_prefix_of(name)),
        ),
    decreases env.len(),
{
    if env.len() > 0 {
        lemma_collect_unstripped(env.drop_last(), prefix);
    }
}

/// With stripping, a name is bound in the collected mapping exactly when the
/// prefix followed by that name is a variable of the environment, and it is
/// bound to that variable's value. So every collected name is what is left of
/// an environment name that begins with the prefix, once the prefix is
/// removed.
pub proof fn lemma_collect_stripped(env: Pairs, prefix: Seq<char>)
    ensures
        forall|name: Seq<char>| #[trigger]
            collected(env, Some(prefix), true).contains_key(name) <==> map_of(env).contains_key(
                prefix + name,
            ),
        forall|name: Seq<char>| #[trigger]
            collected(env, Some(prefix), true).contains_key(name) ==> collected(
                env,
                Some(prefix),
                true,
            )[name] == map_of(env)[prefix + name],
        forall|name: Seq<char>| #[trigger]
            collected(env, Some(prefix), true).contains_key(name) ==> exists|i: int|
                0 <= i < env.len() && prefix.is_prefix_of((#[trigger] env[i]).0) && env[i].0.skip(
                    prefix.len() as int,
                ) == name,
    decreases env.len(),
{
    let stripped = collected(env, Some(prefix), true);
    if env.len() > 0 {
        let init = env.drop_last();
        let full = env.last().0;
        let earlier = collected(init, Some(prefix), true);
        lemma_collect_stripped(init, prefix);
        assert forall|name: Seq<char>|
            (#[trigger] stripped.contains_key(name) <==> map_of(env).contains_key(prefix + name))
                && (stripped.contains_key(name) ==> stripped[name] == map_of(env)[prefix
                + name]) by {
            assert((prefix + name).skip(prefix.len() as int) =~= name);
            assert((prefix + name).subrange(0, prefix.len() as int) =~= prefix);
            assert(earlier.contains_key(name) <==> map_of(init).contains_key(prefix + name));
            assert(map_of(env) == map_of(init).insert(full, env.last().1));
            if prefix.is_prefix_of(full) {
                assert(prefix + full.skip(prefix.len() as int) =~= full);
                assert(stripped == earlier.insert(full.skip(prefix.len() as int), env.last().1));
                assert(name == full.skip(prefix.len() as int) <==> prefix + name == full);
            } else {
                assert(stripped == earlier);
                assert(prefix + name != full);
            }
        }
    }
    lemma_map_of_names(env);
    assert forall|name: Seq<char>| #[trigger] stripped.contains_key(name) implies exists|i: int|
        0 <= i < env.len() && prefix.is_prefix_of((#[trigger] env[i]).0) && env[i].0.skip(
            prefix.len() as int,
        ) == name by {
        let full = prefix + name;
        assert(map_of(env).contains_key(full));
        let i = choose|i: int| 0 <= i < env.len() && #[trigger] env[i].0 == full;
        assert(full.subrange(0, prefix.len() as int) =~= prefix);
        assert(full.skip(prefix.len() as int) =~= name);
        assert(prefix.is_prefix_of(env[i].0) && env[i].0.skip(prefix.len() as int) == name);
    }
}

/// The name under which `name` is stored, or `None` when the variable is not
/// kept.
pub fn select_name(name: &String, prefix: &Option<String>, strip: bool) -> (stored: Option<String>)
    ensures
        stored.deep_view() == if retained(name@, prefix.deep_view()) {
            Some(stored_name(name@, prefix.deep_view(), strip))
        } else {
            None
        },
{
    match prefix {
        None => Some(name.clone()),
        Some(p) => {
            if !starts_with(name.as_str(), p.as_str()) {
                None
            } else if strip {
                match crate::text::strip_prefix(name.as_str(), p.as_str()) {
                    Some(rest) => Some(rest),
                    None => Some(name.clone()),
                }
            } else {
                Some(name.clone())
            }
        },
    }
}

/// Collects the variables of `env` that `prefix` keeps. With `strip_prefix`
/// the prefix is removed from the names under which they are stored.
pub fn collect_env_vars(
    env: &[(String, String)],
    prefix: &Option<String>,
    strip_prefix: bool,
) -> (vars: EnvMap)
    ensures
        vars@ == collected(env.deep_view(), prefix.deep_view(), strip_prefix),
{
    let mut vars = EnvMap::new();
    let mut i: usize = 0;
    while i < env.len()
        invariant
            i <= env@.len(),
            vars@ == collected(env.deep_view().take(i as int), prefix.deep_view(), strip_prefix),
        decreases env.len() - i,
    {
        let ghost seen = env.deep_view().take(i + 1);
        assert(seen.drop_last() =~= env.deep_view().take(i as int));
        match select_name(&env[i].0, prefix, strip_prefix) {
            Some(stored) => {
                vars.insert(stored, env[i].1.clone());
            },
            None => {},
        }
        i += 1;
    }
    assert(env.deep_view().take(i as int) =~= env.deep_view());
    vars
}

} // verus!
