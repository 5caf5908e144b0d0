//! Interpolation of `$NAME` and `${NAME}` references against a snapshot of
//! the environment, with a cache of the names already resolved.

use crate::error::{AsteriskError, ErrorModel, ReferenceFault};
use crate::text::{
    from_chars, is_name_char, name_char, replace_all, replace_text, same_text, to_chars,
};
use vstd::prelude::*;

verus! {

/// The map that a list of `(name, value)` bindings stands for. Where a name
/// is bound twice the later binding counts.
pub open spec fn bindings_map(b: Seq<(String, String)>) -> Map<Seq<char>, Seq<char>>
    decreases b.len(),
{
    if b.len() == 0 {
        Map::empty()
    } else {
        bindings_map(b.drop_last()).insert(b.last().0@, b.last().1@)
    }
}

/// The first index at or after `from` that holds no name character, or the
/// length of `s`.
pub open spec fn name_end(s: Seq<char>, from: int) -> int
    decreases s.len() - from,
{
    if 0 <= from < s.len() && is_name_char(s[from]) {
        name_end(s, from + 1)
    } else {
        from
    }
}

/// `name_end` never moves backwards nor past the end of the text.
pub proof fn lemma_name_end_bounds(s: Seq<char>, from: int)
    requires
        0 <= from <= s.len(),
    ensures
        from <= name_end(s, from) <= s.len(),
    decreases s.len() - from,
{
    if from < s.len() && is_name_char(s[from]) {
        lemma_name_end_bounds(s, from + 1);
    }
}

/// The reference that starts with the `$` at `pos`: its name and the index
/// just behind it, or the reason why it cannot be read.
pub open spec fn reference_at(s: Seq<char>, pos: int) -> Result<(Seq<char>, int), ReferenceFault> {
    if pos + 1 < s.len() && s[pos + 1] == '{' {
        let end = name_end(s, pos + 2);
        if end >= s.len() {
            Err(ReferenceFault::Unterminated)
        } else if s[end] != '}' {
            Err(ReferenceFault::InvalidCharacter(s[end]))
        } else if end == pos + 2 {
            Err(ReferenceFault::EmptyName)
        } else {
            Ok((s.subrange(pos + 2, end), end + 1))
        }
    } else {
        let end = name_end(s, pos + 1);
        if end == pos + 1 {
            Err(ReferenceFault::EmptyName)
        } else {
            Ok((s.subrange(pos + 1, end), end))
        }
    }
}

/// A reference that can be read ends behind its `$` and within the text.
pub proof fn lemma_reference_bounds(s: Seq<char>, pos: int)
    requires
        0 <= pos < s.len(),
    ensures
        match reference_at(s, pos) {
            Ok((name, end)) => pos < end <= s.len() && name.len() > 0,
            Err(_) => true,
        },
{
    lemma_name_end_bounds(s, pos + 1);
    if pos + 2 <= s.len() {
        lemma_name_end_bounds(s, pos + 2);
    }
}

/// The value of `name`: the cached one first, else that of the environment.
pub open spec fn lookup(
    cache: Map<Seq<char>, Seq<char>>,
    env: Map<Seq<char>, Seq<char>>,
    name: Seq<char>,
) -> Option<Seq<char>> {
    if cache.contains_key(name) {
        Some(cache[name])
    } else if env.contains_key(name) {
        Some(env[name])
    } else {
        None
    }
}

/// Interpolation of `s` from `pos` on. `acc` is the text as substituted so
/// far. Each reference found in `s` is looked up, cached, and its whole
/// token replaced wherever it occurs in `acc`. The result is the cache as
/// it stands at the end, and the substituted text or the first failure.
pub open spec fn interpolate_from(
    s: Seq<char>,
    pos: int,
    acc: Seq<char>,
    cache: Map<Seq<char>, Seq<char>>,
    env: Map<Seq<char>, Seq<char>>,
) -> (Map<Seq<char>, Seq<char>>, Result<Seq<char>, ErrorModel>)
    decreases s.len() - pos,
{
    if pos < 0 || pos >= s.len() {
        (cache, Ok(acc))
    } else if s[pos] != '$' {
        interpolate_from(s, pos + 1, acc, cache, env)
    } else {
        match reference_at(s, pos) {
            Err(fault) => (cache, Err(ErrorModel::MalformedReference(fault))),
            Ok((name, end)) => match lookup(cache, env, name) {
                None => (cache, Err(ErrorModel::UnresolvedVariable(name))),
                Some(value) => {
                    proof {
                        lemma_reference_bounds(s, pos);
                    }
                    interpolate_from(
                        s,
                        end,
                        replace_all(acc, s.subrange(pos, end), value),
                        cache.insert(name, value),
                        env,
                    )
                },
            },
        }
    }
}

/// Interpolation of the whole of `s`.
pub open spec fn interpolate(
    s: Seq<char>,
    cache: Map<Seq<char>, Seq<char>>,
    env: Map<Seq<char>, Seq<char>>,
) -> (Map<Seq<char>, Seq<char>>, Result<Seq<char>, ErrorModel>) {
    interpolate_from(s, 0, s, cache, env)
}

/// The model of a `Result` that carries text.
pub open spec fn text_result(r: Result<String, AsteriskError>) -> Result<Seq<char>, ErrorModel> {
    match r {
        Ok(text) => Ok(text@),
        Err(e) => Err(e@),
    }
}

/// Resolves variable references in configuration strings. It owns a
/// snapshot of the environment and a cache of the names it has resolved.
pub struct EnvironmentResolver {
    cache: Vec<(String, String)>,
    environment: Vec<(String, String)>,
}

impl EnvironmentResolver {
    /// The cached bindings.
    pub closed spec fn cache(&self) -> Map<Seq<char>, Seq<char>> {
        bindings_map(self.cache@)
    }

    /// The environment as the resolver sees it.
    pub closed spec fn environment(&self) -> Map<Seq<char>, Seq<char>> {
        bindings_map(self.environment@)
    }

    /// A resolver with an empty cache and an empty environment.
    pub fn new() -> (r: Self)
        ensures
            r.cache() == Map::<Seq<char>, Seq<char>>::empty(),
            r.environment() == Map::<Seq<char>, Seq<char>>::empty(),
    {
        EnvironmentResolver { cache: Vec::new(), environment: Vec::new() }
    }

    /// A resolver with an empty cache over the given environment.
    pub fn with_environment(variables: Vec<(String, String)>) -> (r: Self)
        ensures
            r.cache() == Map::<Seq<char>, Seq<char>>::empty(),
            r.environment() == bindings_map(variables@),
    {
        EnvironmentResolver { cache: Vec::new(), environment: variables }
    }

    /// Replaces the environment. The cache stays as it is, so a name that
    /// was resolved before keeps its value.
    pub fn set_environment(&mut self, variables: Vec<(String, String)>)
        ensures
            final(self).cache() == old(self).cache(),
            final(self).environment() == bindings_map(variables@),
    {
        self.environment = variables;
    }

    /// Resolves the references in `value`.
    #[verifier::loop_isolation(false)]
    pub fn resolve(&mut self, value: &str) -> (r: Result<String, AsteriskError>)
        ensures
            final(self).environment() == old(self).environment(),
            (final(self).cache(), text_result(r)) == interpolate(
                value@,
                old(self).cache(),
                old(self).environment(),
            ),
            !value@.contains('$') ==> text_result(r) == Ok::<Seq<char>, ErrorModel>(value@)
                && final(self).cache() == old(self).cache(),
    {
        let chars = to_chars(value);
        let mut result: String = value.to_owned();
        let mut pos: usize = 0;
        let ghost env = self.environment();
        let ghost goal = interpolate(value@, self.cache(), env);
        proof {
            lemma_plain_text(value@, 0, value@, self.cache(), env);
        }
        while pos < chars.len()
            invariant
                chars@ == value@,
                pos <= chars.len(),
                self.environment() == env,
                interpolate_from(chars@, pos as int, result@, self.cache(), env) == goal,
            decreases chars.len() - pos,
        {
            if chars[pos] != '$' {
                pos += 1;
                continue ;
            }
            let braced = pos + 1 < chars.len() && chars[pos + 1] == '{';
            let start: usize = if braced {
                pos + 2
            } else {
                pos + 1
            };
            let mut end: usize = start;
            while end < chars.len() && name_char(chars[end])
                invariant
                    start <= end <= chars.len(),
                    name_end(chars@, start as int) == name_end(chars@, end as int),
                decreases chars.len() - end,
            {
                end += 1;
            }
            if braced {
                if end >= chars.len() {
                    return Err(AsteriskError::MalformedReference(ReferenceFault::Unterminated));
                }
                if chars[end] != '}' {
                    return Err(
                        AsteriskError::MalformedReference(
                            ReferenceFault::InvalidCharacter(chars[end]),
                        ),
                    );
                }
            }
            if end == start {
                return Err(AsteriskError::MalformedReference(ReferenceFault::EmptyName));
            }
            let stop: usize = if braced {
                end + 1
            } else {
                end
            };
            let name = from_chars(&chars, start, end);
            let token = from_chars(&chars, pos, stop);
            match self.get_env_var(name.as_str()) {
                Err(e) => {
                    return Err(e);
                },
                Ok(found) => {
                    result = replace_text(result.as_str(), token.as_str(), found.as_str());
                    pos = stop;
                },
            }
        }
        Ok(result)
    }

    /// The value of `name`, from the cache or else from the environment;
    /// a value found in the environment is cached.
    pub fn get_env_var(&mut self, name: &str) -> (r: Result<String, AsteriskError>)
        ensures
            final(self).environment() == old(self).environment(),
            match lookup(old(self).cache(), old(self).environment(), name@) {
                Some(value) => text_result(r) == Ok::<Seq<char>, ErrorModel>(value)
                    && final(self).cache() == old(self).cache().insert(name@, value),
                None => text_result(r) == Err::<Seq<char>, ErrorModel>(
                    ErrorModel::UnresolvedVariable(name@),
                ) && final(self).cache() == old(self).cache(),
            },
    {
        match find_binding(&self.cache, name) {
            Some(value) => {
                assert(self.cache().insert(name@, value@) =~= self.cache());
                Ok(value)
            },
            None => match find_binding(&self.environment, name) {
                Some(value) => {
                    let ghost before = self.cache@;
                    self.cache.push((name.to_owned(), value.clone()));
                    assert(self.cache@.drop_last() =~= before);
                    Ok(value)
                },
                None => Err(AsteriskError::UnresolvedVariable(name.to_owned())),
            },
        }
    }

    /// Empties the cache.
    pub fn clear_cache(&mut self)
        ensures
            final(self).cache() == Map::<Seq<char>, Seq<char>>::empty(),
            final(self).environment() == old(self).environment(),
    {
        self.cache.clear();
    }
}

impl Default for EnvironmentResolver {
    fn default() -> (r: Self)
        ensures
            r.cache() == Map::<Seq<char>, Seq<char>>::empty(),
            r.environment() == Map::<Seq<char>, Seq<char>>::empty(),
    {
        EnvironmentResolver::new()
    }
}

/// Looks `name` up in a list of bindings, the later bindings first.
pub fn find_binding(bindings: &Vec<(String, String)>, name: &str) -> (r: Option<String>)
    ensures
        match r {
            Some(value) => bindings_map(bindings@).contains_key(name@) && bindings_map(
                bindings@,
            )[name@] == value@,
            None => !bindings_map(bindings@).contains_key(name@),
        },
{
    let mut i: usize = bindings.len();
    proof {
        assert(bindings@.take(bindings@.len() as int) =~= bindings@);
    }
    while i > 0
        invariant
            i <= bindings.len(),
            bindings_map(bindings@).contains_key(name@) == bindings_map(
                bindings@.take(i as int),
            ).contains_key(name@),
            bindings_map(bindings@).contains_key(name@) ==> bindings_map(bindings@)[name@]
                == bindings_map(bindings@.take(i as int))[name@],
        decreases i,
    {
        proof {
            assert(bindings@.take(i as int).drop_last() =~= bindings@.take(i as int - 1));
            assert(bindings@.take(i as int).last() == bindings@[i as int - 1]);
        }
        i -= 1;
        if same_text(bindings[i].0.as_str(), name) {
            return Some(bindings[i].1.clone());
        }
    }
    None
}

/// Text without a `$` interpolates to itself and leaves the cache alone.
pub proof fn lemma_plain_text(
    s: Seq<char>,
    pos: int,
    acc: Seq<char>,
    cache: Map<Seq<char>, Seq<char>>,
    env: Map<Seq<char>, Seq<char>>,
)
    requires
        0 <= pos,
    ensures
        (forall|k: int| pos <= k < s.len() ==> s[k] != '$') ==> interpolate_from(
            s,
            pos,
            acc,
            cache,
            env,
        ) == (cache, Ok::<Seq<char>, ErrorModel>(acc)),
    decreases s.len() - pos,
{
    if pos < s.len() {
        lemma_plain_text(s, pos + 1, acc, cache, env);
    }
}

/// A run of name characters that ends at `to` is what `name_end` finds.
pub proof fn lemma_name_run(s: Seq<char>, from: int, to: int)
    requires
        0 <= from <= to <= s.len(),
        forall|k: int| from <= k < to ==> is_name_char(s[k]),
        to == s.len() || !is_name_char(s[to]),
    ensures
        name_end(s, from) == to,
    decreases to - from,
{
    if from < to {
        lemma_name_run(s, from + 1, to);
    }
}

/// Replacing a non-empty text within itself leaves the replacement.
pub proof fn lemma_replace_whole(s: Seq<char>, with: Seq<char>)
    requires
        s.len() > 0,
    ensures
        replace_all(s, s, with) == with,
{
    assert(s.subrange(0, s.len() as int) =~= s);
    let rest = s.subrange(s.len() as int, s.len() as int);
    assert(rest.len() == 0);
    assert(replace_all(rest, s, with) == rest);
    assert(with + rest =~= with);
}

/// What a text that is one reference to `name` interpolates to.
pub open spec fn single_reference(
    name: Seq<char>,
    cache: Map<Seq<char>, Seq<char>>,
    env: Map<Seq<char>, Seq<char>>,
) -> (Map<Seq<char>, Seq<char>>, Result<Seq<char>, ErrorModel>) {
    match lookup(cache, env, name) {
        Some(value) => (cache.insert(name, value), Ok(value)),
        None => (cache, Err(ErrorModel::UnresolvedVariable(name))),
    }
}

/// `$NAME` and `${NAME}` interpolate alike: to the value of `NAME` where
/// it is cached or set, and to the same failure where it is not.
pub proof fn lemma_braced_like_bare(
    name: Seq<char>,
    cache: Map<Seq<char>, Seq<char>>,
    env: Map<Seq<char>, Seq<char>>,
)
    requires
        name.len() > 0,
        forall|k: int| 0 <= k < name.len() ==> is_name_char(name[k]),
    ensures
        interpolate(seq!['$'] + name, cache, env) == single_reference(name, cache, env),
        interpolate(seq!['$', '{'] + name + seq!['}'], cache, env) == single_reference(
            name,
            cache,
            env,
        ),
{
    let bare = seq!['$'] + name;
    assert(is_name_char(name[0]));
    assert(bare[1] == name[0]);
    lemma_name_run(bare, 1, bare.len() as int);
    assert(bare.subrange(1, bare.len() as int) =~= name);
    assert(bare.subrange(0, bare.len() as int) =~= bare);
    match lookup(cache, env, name) {
        Some(value) => {
            lemma_replace_whole(bare, value);
            assert(interpolate_from(
                bare,
                bare.len() as int,
                value,
                cache.insert(name, value),
                env,
            ) == (cache.insert(name, value), Ok::<Seq<char>, ErrorModel>(value)));
        },
        None => {},
    }
    let braced = seq!['$', '{'] + name + seq!['}'];
    let close = name.len() as int + 2;
    assert(braced[1] == '{');
    assert(braced[close] == '}');
    assert forall|k: int| 2 <= k < close implies is_name_char(braced[k]) by {
        assert(braced[k] == name[k - 2]);
    }
    lemma_name_run(braced, 2, close);
    assert(braced.subrange(2, close) =~= name);
    assert(braced.subrange(0, close + 1) =~= braced);
    match lookup(cache, env, name) {
        Some(value) => {
            lemma_replace_whole(braced, value);
            assert(interpolate_from(braced, close + 1, value, cache.insert(name, value), env) == (
                cache.insert(name, value),
                Ok::<Seq<char>, ErrorModel>(value),
            ));
        },
        None => {},
    }
}

/// Interpolation only adds to the cache: what was cached stays, with its
/// value.
pub proof fn lemma_cache_grows(
    s: Seq<char>,
    pos: int,
    acc: Seq<char>,
    cache: Map<Seq<char>, Seq<char>>,
    env: Map<Seq<char>, Seq<char>>,
)
    requires
        0 <= pos,
    ensures
        forall|k: Seq<char>| #[trigger]
            cache.contains_key(k) ==> interpolate_from(s, pos, acc, cache, env).0.contains_key(k)
                && interpolate_from(s, pos, acc, cache, env).0[k] == cache[k],
    decreases s.len() - pos,
{
    if pos < s.len() {
        if s[pos] != '$' {
            lemma_cache_grows(s, pos + 1, acc, cache, env);
        } else {
            match reference_at(s, pos) {
                Err(_) => {},
                Ok((name, end)) => match lookup(cache, env, name) {
                    None => {},
                    Some(value) => {
                        lemma_reference_bounds(s, pos);
                        let next_acc = replace_all(acc, s.subrange(pos, end), value);
                        let next_cache = cache.insert(name, value);
                        lemma_cache_grows(s, end, next_acc, next_cache, env);
                        assert forall|k: Seq<char>| #[trigger]
                            cache.contains_key(k) implies interpolate_from(
                            s,
                            end,
                            next_acc,
                            next_cache,
                            env,
                        ).0.contains_key(k) && interpolate_from(
                            s,
                            end,
                            next_acc,
                            next_cache,
                            env,
                        ).0[k] == cache[k] by {
                            assert(next_cache.contains_key(k));
                            assert(next_cache[k] == cache[k]);
                        }
                    },
                },
            }
        }
    }
}

/// Once a text has been interpolated, interpolating it again with the
/// cache that the first pass left gives the same text and the same cache,
/// whatever the environment has become.
pub proof fn lemma_cached_values_persist(
    s: Seq<char>,
    pos: int,
    acc: Seq<char>,
    cache: Map<Seq<char>, Seq<char>>,
    env: Map<Seq<char>, Seq<char>>,
    later_env: Map<Seq<char>, Seq<char>>,
)
    requires
        0 <= pos,
        interpolate_from(s, pos, acc, cache, env).1 is Ok,
    ensures
        interpolate_from(s, pos, acc, interpolate_from(s, pos, acc, cache, env).0, later_env)
            == interpolate_from(s, pos, acc, cache, env),
    decreases s.len() - pos,
{
    let first = interpolate_from(s, pos, acc, cache, env);
    if pos < s.len() {
        if s[pos] != '$' {
            lemma_cached_values_persist(s, pos + 1, acc, cache, env, later_env);
        } else {
            match reference_at(s, pos) {
                Err(_) => {},
                Ok((name, end)) => match lookup(cache, env, name) {
                    None => {},
                    Some(value) => {
                        lemma_reference_bounds(s, pos);
                        let next_acc = replace_all(acc, s.subrange(pos, end), value);
                        let next_cache = cache.insert(name, value);
                        lemma_cache_grows(s, end, next_acc, next_cache, env);
                        lemma_cached_values_persist(
                            s,
                            end,
                            next_acc,
                            next_cache,
                            env,
                            later_env,
                        );
                        assert(next_cache.contains_key(name));
                        assert(first.0.contains_key(name) && first.0[name] == value);
                        assert(first.0.insert(name, value) =~= first.0);
                    },
                },
            }
        }
    }
}

/// Interpolating the same text twice with one resolver gives the same
/// text both times, even if the environment changes in between.
pub proof fn lemma_second_pass_is_cached(
    s: Seq<char>,
    cache: Map<Seq<char>, Seq<char>>,
    env: Map<Seq<char>, Seq<char>>,
    later_env: Map<Seq<char>, Seq<char>>,
)
    requires
        interpolate(s, cache, env).1 is Ok,
    ensures
        interpolate(s, interpolate(s, cache, env).0, later_env) == interpolate(s, cache, env),
{
    lemma_cached_values_persist(s, 0, s, cache, env, later_env);
}

} // verus!
