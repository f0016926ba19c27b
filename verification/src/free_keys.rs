//! The pool of provider API keys that sessions may be given, handed out
//! round-robin.
//!
//! Keys come from environment variables, each holding a comma-separated
//! list; the caller reads the variables that `key_sources` names.

use vstd::prelude::*;
use crate::text::{char_is_whitespace, chars_of, is_whitespace, split_char, string_of, trim, trim_chars, trim_end, trim_start, lemma_split_char_nonempty, lemma_split_char_step};

verus! {

/// The provider a key belongs to.
#[derive(Debug, Clone, Copy, PartialEq, Eq, Structural)]
pub enum Provider {
    Anthropic,
    OpenRouter,
}

/// The provider's name.
pub open spec fn provider_name(p: Provider) -> Seq<char> {
    match p {
        Provider::Anthropic => "anthropic"@,
        Provider::OpenRouter => "openrouter"@,
    }
}

/// The variable through which a session receives a key of the provider.
pub open spec fn provider_env_var(p: Provider) -> Seq<char> {
    match p {
        Provider::Anthropic => "ANTHROPIC_API_KEY"@,
        Provider::OpenRouter => "OPENROUTER_API_KEY"@,
    }
}

#[derive(Debug, Clone)]
pub struct ProviderKey {
    pub provider: &'static str,
    pub env_var: &'static str,
    pub key: String,
}

/// A key of provider `p`: its name, its variable, and the key itself.
pub open spec fn key_of(p: Provider, token: Seq<char>) -> (Seq<char>, Seq<char>, Seq<char>) {
    (provider_name(p), provider_env_var(p), token)
}

/// The view of a key.
pub open spec fn key_view(k: ProviderKey) -> (Seq<char>, Seq<char>, Seq<char>) {
    (k.provider@, k.env_var@, k.key@)
}

/// The views of a list of keys.
pub open spec fn keys_view(ks: Seq<ProviderKey>) -> Seq<(Seq<char>, Seq<char>, Seq<char>)> {
    ks.map_values(|k: ProviderKey| key_view(k))
}

/// The pieces that are not empty, in order.
pub open spec fn non_empty(s: Seq<Seq<char>>) -> Seq<Seq<char>>
    decreases s.len(),
{
    if s.len() == 0 {
        Seq::empty()
    } else if s.last().len() > 0 {
        non_empty(s.drop_last()).push(s.last())
    } else {
        non_empty(s.drop_last())
    }
}

/// Each piece trimmed of white space.
pub open spec fn trim_all(s: Seq<Seq<char>>) -> Seq<Seq<char>> {
    s.map_values(|p: Seq<char>| trim(p))
}

/// The keys a variable's value lists: split at commas, each piece trimmed of
/// white space, empty pieces dropped.
pub open spec fn key_tokens(value: Seq<char>) -> Seq<Seq<char>> {
    non_empty(trim_all(split_char(value, ',')))
}

/// The keys of provider `p` that the tokens give.
pub open spec fn keys_of(p: Provider, tokens: Seq<Seq<char>>) -> Seq<(Seq<char>, Seq<char>, Seq<char>)> {
    tokens.map_values(|t: Seq<char>| key_of(p, t))
}

/// The name and variable of a provider, as static text.
fn provider_labels(p: Provider) -> (r: (&'static str, &'static str))
    ensures
        r.0@ == provider_name(p),
        r.1@ == provider_env_var(p),
{
    match p {
        Provider::Anthropic => ("anthropic", "ANTHROPIC_API_KEY"),
        Provider::OpenRouter => ("openrouter", "OPENROUTER_API_KEY"),
    }
}

/// Appends the keys of provider `p` that `value` lists.
pub fn push_keys(keys: &mut Vec<ProviderKey>, value: &str, p: Provider)
    ensures
        keys_view(final(keys)@) == keys_view(old(keys)@) + keys_of(p, key_tokens(value@)),
{
    let labels = provider_labels(p);
    let v = chars_of(value);
    let ghost start = keys_view(keys@);
    let mut cur: Vec<char> = Vec::new();
    let n = v.len();
    let mut i: usize = 0;
    proof {
        lemma_split_char_nonempty(v@.take(0), ',');
        assert(v@.take(0) =~= Seq::<char>::empty());
        assert(non_empty(trim_all(split_char(v@.take(0), ',').drop_last())) =~= Seq::<Seq<char>>::empty());
    }
    while i < n
        invariant
            n == v@.len(),
            v@ == value@,
            i <= n,
            labels.0@ == provider_name(p),
            labels.1@ == provider_env_var(p),
            start == keys_view(old(keys)@),
            split_char(v@.take(i as int), ',').len() >= 1,
            cur@ == split_char(v@.take(i as int), ',').last(),
            keys_view(keys@) == start + keys_of(
                p,
                non_empty(trim_all(split_char(v@.take(i as int), ',').drop_last())),
            ),
        decreases n - i,
    {
        let ghost parts = split_char(v@.take(i as int), ',');
        proof {
            lemma_split_char_step(v@, i as int, ',');
            lemma_split_char_nonempty(v@.take(i + 1), ',');
        }
        if v[i] == ',' {
            let t = trim_chars(&cur);
            let ghost before = keys_view(keys@);
            let ghost done = trim_all(parts.drop_last());
            assert(parts.push(Seq::empty()).drop_last() =~= parts);
            assert(split_char(v@.take(i + 1), ',').drop_last() =~= parts);
            assert(parts.drop_last().push(parts.last()) =~= parts);
            assert(trim_all(parts) =~= done.push(trim(cur@)));
            assert(done.push(t@).drop_last() =~= done);
            if t.len() > 0 {
                keys.push(ProviderKey { provider: labels.0, env_var: labels.1, key: string_of(&t) });
                assert(keys_view(keys@) =~= before.push(key_of(p, t@)));
                assert(keys_of(p, non_empty(done).push(t@)) =~= keys_of(p, non_empty(done)).push(key_of(p, t@)));
            }
            cur = Vec::new();
            assert(cur@ =~= Seq::<char>::empty());
        } else {
            let ghost before_cur = cur@;
            cur.push(v[i]);
            assert(parts.update(parts.len() - 1, parts.last().push(v@[i as int])).drop_last() =~= parts.drop_last());
            assert(cur@ =~= before_cur.push(v@[i as int]));
        }
        i = i + 1;
    }
    let ghost parts = split_char(v@.take(n as int), ',');
    assert(v@.take(n as int) =~= v@);
    let t = trim_chars(&cur);
    let ghost before = keys_view(keys@);
    let ghost done = trim_all(parts.drop_last());
    assert(parts.drop_last().push(parts.last()) =~= parts);
    assert(trim_all(parts) =~= done.push(trim(cur@)));
    assert(done.push(t@).drop_last() =~= done);
    if t.len() > 0 {
        keys.push(ProviderKey { provider: labels.0, env_var: labels.1, key: string_of(&t) });
        assert(keys_view(keys@) =~= before.push(key_of(p, t@)));
        assert(keys_of(p, non_empty(done).push(t@)) =~= keys_of(p, non_empty(done)).push(key_of(p, t@)));
    }
    assert(key_tokens(value@) == non_empty(trim_all(parts)));
}

/// The variables keys are read from, in order, and the provider of each.
pub open spec fn key_source_list() -> Seq<(Seq<char>, Provider)> {
    seq![
        ("ANTHROPIC_API_KEY"@, Provider::Anthropic),
        ("CAPSULE_ANTHROPIC_API_KEY"@, Provider::Anthropic),
        ("CAPSULE_ANTHROPIC_API_KEYS"@, Provider::Anthropic),
        ("CAPSULE_FREE_KEYS_ANTHROPIC"@, Provider::Anthropic),
        ("CAPSULE_FREE_KEYS_OPENROUTER"@, Provider::OpenRouter),
        ("OPENROUTER_API_KEY"@, Provider::OpenRouter),
        ("CAPSULE_OPENROUTER_API_KEYS"@, Provider::OpenRouter),
    ]
}

/// The variables keys are read from, in order, and the provider of each.
pub fn key_sources() -> (r: Vec<(&'static str, Provider)>)
    ensures
        r@.map_values(|e: (&'static str, Provider)| (e.0@, e.1)) == key_source_list(),
{
    let mut r: Vec<(&'static str, Provider)> = Vec::new();
    r.push(("ANTHROPIC_API_KEY", Provider::Anthropic));
    r.push(("CAPSULE_ANTHROPIC_API_KEY", Provider::Anthropic));
    r.push(("CAPSULE_ANTHROPIC_API_KEYS", Provider::Anthropic));
    r.push(("CAPSULE_FREE_KEYS_ANTHROPIC", Provider::Anthropic));
    r.push(("CAPSULE_FREE_KEYS_OPENROUTER", Provider::OpenRouter));
    r.push(("OPENROUTER_API_KEY", Provider::OpenRouter));
    r.push(("CAPSULE_OPENROUTER_API_KEYS", Provider::OpenRouter));
    assert(r@.map_values(|e: (&'static str, Provider)| (e.0@, e.1)) =~= key_source_list());
    r
}

/// The keys that the values of the key variables give, in order; an unset
/// variable gives none.
pub open spec fn keys_from_values(vals: Seq<(Provider, Option<Seq<char>>)>) -> Seq<(Seq<char>, Seq<char>, Seq<char>)>
    decreases vals.len(),
{
    if vals.len() == 0 {
        Seq::empty()
    } else {
        keys_from_values(vals.drop_last()) + match vals.last().1 {
            Some(v) => keys_of(vals.last().0, key_tokens(v)),
            None => Seq::empty(),
        }
    }
}

/// The views of the values read for each key variable.
pub open spec fn values_view(vals: Seq<(Provider, Option<String>)>) -> Seq<(Provider, Option<Seq<char>>)> {
    vals.map_values(|e: (Provider, Option<String>)| (e.0, match e.1 {
        Some(s) => Some(s@),
        None => None,
    }))
}

/// The position after `c` in a cycle over all `usize` values.
pub open spec fn next_cursor(c: usize) -> usize {
    if c == usize::MAX {
        0
    } else {
        (c + 1) as usize
    }
}

/// Provider keys handed out round-robin.
pub struct FreeKeyPool {
    keys: Vec<ProviderKey>,
    index: usize,
}

impl FreeKeyPool {
    /// The keys, in the order they were read.
    pub closed spec fn keys(&self) -> Seq<(Seq<char>, Seq<char>, Seq<char>)> {
        keys_view(self.keys@)
    }

    /// How many keys have been handed out, counting modulo `usize::MAX + 1`.
    pub closed spec fn cursor(&self) -> usize {
        self.index
    }

    /// The pool of the keys that the values of the key variables list, given
    /// in the order of `key_sources` with the provider of each.
    pub fn from_env(values: Vec<(Provider, Option<String>)>) -> (r: Self)
        ensures
            r.keys() == keys_from_values(values_view(values@)),
            r.cursor() == 0,
            forall|j: int| 0 <= j < r.keys().len() ==> {
                let k = #[trigger] r.keys()[j];
                clean_key(k.2) && known_provider(k.0, k.1)
            },
    {
        proof {
            law_pooled_keys_are_clean(values_view(values@));
        }
        let mut keys: Vec<ProviderKey> = Vec::new();
        let ghost vals = values_view(values@);
        let n = values.len();
        let mut i: usize = 0;
        assert(vals.take(0) =~= Seq::<(Provider, Option<Seq<char>>)>::empty());
        assert(keys_view(keys@) =~= Seq::<(Seq<char>, Seq<char>, Seq<char>)>::empty());
        while i < n
            invariant
                n == values@.len(),
                vals == values_view(values@),
                i <= n,
                keys_view(keys@) == keys_from_values(vals.take(i as int)),
            decreases n - i,
        {
            let (p, v) = &values[i];
            let ghost before = keys_view(keys@);
            assert(vals.take(i + 1).drop_last() =~= vals.take(i as int));
            match v {
                Some(value) => {
                    push_keys(&mut keys, value.as_str(), *p);
                },
                None => {
                    assert(before + Seq::<(Seq<char>, Seq<char>, Seq<char>)>::empty() =~= before);
                },
            }
            i = i + 1;
        }
        assert(vals.take(n as int) =~= vals);
        FreeKeyPool { keys, index: 0 }
    }

    /// The number of keys.
    pub fn len(&self) -> (n: usize)
        ensures
            n == self.keys().len(),
    {
        self.keys.len()
    }

    /// Whether the pool has no keys.
    pub fn is_empty(&self) -> (b: bool)
        ensures
            b == (self.keys().len() == 0),
    {
        self.keys.len() == 0
    }

    /// The next key round-robin: the key at the cursor modulo the number of
    /// keys; the cursor then advances. `None` when the pool is empty.
    pub fn next_key(&mut self) -> (r: Option<&ProviderKey>)
        ensures
            final(self).keys() == old(self).keys(),
            old(self).keys().len() == 0 ==> r is None && final(self).cursor() == old(self).cursor(),
            old(self).keys().len() > 0 ==> {
                &&& r matches Some(k) && key_view(*k) == old(self).keys()[old(self).cursor() as int % old(self).keys().len() as int]
                &&& final(self).cursor() == next_cursor(old(self).cursor())
            },
    {
        if self.keys.len() == 0 {
            return None;
        }
        let idx = self.index % self.keys.len();
        self.index = self.index.wrapping_add(1);
        Some(&self.keys[idx])
    }
}

/// Round-robin: consecutive keys come from consecutive positions, and after
/// the last key comes the first.
pub proof fn law_round_robin(n: nat, c: usize)
    requires
        n > 0,
        c < usize::MAX,
    ensures
        next_cursor(c) as int % n as int == (if c as int % n as int == n - 1 {
            0
        } else {
            c as int % n as int + 1
        }),
{
    assert((c + 1) % (n as int) == (if c as int % n as int == n - 1 {
        0
    } else {
        c as int % n as int + 1
    })) by (nonlinear_arith)
        requires
            n > 0,
    ;
}

/// Whether `t` holds no comma.
pub open spec fn comma_free(t: Seq<char>) -> bool {
    forall|i: int| 0 <= i < t.len() ==> t[i] != ','
}

/// A key as the pool holds it: not empty, without surrounding white space,
/// without commas.
pub open spec fn clean_key(t: Seq<char>) -> bool {
    &&& t.len() > 0
    &&& trim(t) == t
    &&& comma_free(t)
}

/// A provider's name with the variable a session receives its key in.
pub open spec fn known_provider(name: Seq<char>, var: Seq<char>) -> bool {
    ||| name == "anthropic"@ && var == "ANTHROPIC_API_KEY"@
    ||| name == "openrouter"@ && var == "OPENROUTER_API_KEY"@
}

/// No piece of a split at commas holds a comma.
proof fn lemma_split_pieces_comma_free(s: Seq<char>)
    ensures
        forall|j: int| 0 <= j < split_char(s, ',').len() ==> comma_free(#[trigger] split_char(s, ',')[j]),
    decreases s.len(),
{
    if s.len() > 0 {
        let init = s.drop_last();
        lemma_split_pieces_comma_free(init);
        lemma_split_char_nonempty(init, ',');
        let r = split_char(init, ',');
        if s.last() != ',' {
            let l = r.last().push(s.last());
            assert(comma_free(r[r.len() - 1]));
            assert(comma_free(l));
            let u = r.update(r.len() - 1, l);
            assert forall|j: int| 0 <= j < u.len() implies comma_free(#[trigger] u[j]) by {
                if j < r.len() - 1 {
                    assert(u[j] == r[j]);
                }
            }
        } else {
            let u = r.push(Seq::<char>::empty());
            assert forall|j: int| 0 <= j < u.len() implies comma_free(#[trigger] u[j]) by {
                if j < r.len() {
                    assert(u[j] == r[j]);
                }
            }
        }
    }
}

/// Trimming the start drops characters from the front only.
proof fn lemma_trim_start_suffix(s: Seq<char>)
    ensures
        trim_start(s).len() <= s.len(),
        trim_start(s) == s.skip(s.len() - trim_start(s).len()),
        trim_start(s).len() > 0 ==> !is_whitespace(trim_start(s)[0]),
    decreases s.len(),
{
    if s.len() > 0 && is_whitespace(s[0]) {
        lemma_trim_start_suffix(s.drop_first());
        let t = trim_start(s.drop_first());
        assert(s.drop_first().skip(s.drop_first().len() - t.len()) =~= s.skip(s.len() - t.len()));
    } else {
        assert(s.skip(0) =~= s);
    }
}

/// Trimming the end drops characters from the back only.
proof fn lemma_trim_end_prefix(s: Seq<char>)
    ensures
        trim_end(s).len() <= s.len(),
        trim_end(s) == s.take(trim_end(s).len() as int),
        trim_end(s).len() > 0 ==> !is_whitespace(trim_end(s).last()),
    decreases s.len(),
{
    if s.len() > 0 && is_whitespace(s.last()) {
        lemma_trim_end_prefix(s.drop_last());
        let t = trim_end(s.drop_last());
        assert(s.drop_last().take(t.len() as int) =~= s.take(t.len() as int));
    } else {
        assert(s.take(s.len() as int) =~= s);
    }
}

/// A trimmed piece is trimmed, and holds no comma when the piece held none.
proof fn lemma_trim_clean(p: Seq<char>)
    requires
        comma_free(p),
    ensures
        trim(trim(p)) == trim(p),
        comma_free(trim(p)),
{
    lemma_trim_start_suffix(p);
    let y = trim_start(p);
    lemma_trim_end_prefix(y);
    let z = trim_end(y);
    assert forall|i: int| 0 <= i < z.len() implies z[i] != ',' by {
        assert(z[i] == y[i]);
        assert(y[i] == p[p.len() - y.len() + i]);
    }
    if z.len() > 0 {
        assert(z[0] == y[0]);
        assert(trim_start(z) == z);
        assert(trim_end(z) == z);
    } else {
        assert(trim_start(z) == z);
    }
}

/// Every token of a value is a clean key.
proof fn lemma_key_tokens_clean(value: Seq<char>)
    ensures
        forall|j: int| 0 <= j < key_tokens(value).len() ==> clean_key(#[trigger] key_tokens(value)[j]),
{
    let pieces = split_char(value, ',');
    lemma_split_pieces_comma_free(value);
    let tr = trim_all(pieces);
    assert forall|j: int| 0 <= j < tr.len() implies trim(#[trigger] tr[j]) == tr[j] && comma_free(tr[j]) by {
        assert(comma_free(pieces[j]));
        lemma_trim_clean(pieces[j]);
    }
    lemma_non_empty_keeps(tr);
}

/// The pieces `non_empty` keeps are non-empty pieces of its argument.
proof fn lemma_non_empty_keeps(s: Seq<Seq<char>>)
    requires
        forall|j: int| 0 <= j < s.len() ==> trim(#[trigger] s[j]) == s[j] && comma_free(s[j]),
    ensures
        forall|j: int| 0 <= j < non_empty(s).len() ==> clean_key(#[trigger] non_empty(s)[j]),
    decreases s.len(),
{
    if s.len() > 0 {
        let init = s.drop_last();
        assert forall|j: int| 0 <= j < init.len() implies trim(#[trigger] init[j]) == init[j] && comma_free(init[j]) by {
            assert(init[j] == s[j]);
        }
        lemma_non_empty_keeps(init);
        let r = non_empty(init);
        if s.last().len() > 0 {
            assert(trim(s[s.len() - 1]) == s[s.len() - 1]);
            let u = r.push(s.last());
            assert forall|j: int| 0 <= j < u.len() implies clean_key(#[trigger] u[j]) by {
                if j < r.len() {
                    assert(u[j] == r[j]);
                }
            }
        }
    }
}

/// Every key of the pool is a clean key of a known provider: it is not
/// empty, has no white space around it and holds no comma, and it goes with
/// the Anthropic or the OpenRouter variable.
pub proof fn law_pooled_keys_are_clean(vals: Seq<(Provider, Option<Seq<char>>)>)
    ensures
        forall|j: int| 0 <= j < keys_from_values(vals).len() ==> {
            let k = #[trigger] keys_from_values(vals)[j];
            clean_key(k.2) && known_provider(k.0, k.1)
        },
    decreases vals.len(),
{
    if vals.len() > 0 {
        let init = vals.drop_last();
        law_pooled_keys_are_clean(init);
        let a = keys_from_values(init);
        let b = match vals.last().1 {
            Some(v) => keys_of(vals.last().0, key_tokens(v)),
            None => Seq::empty(),
        };
        assert(keys_from_values(vals) == a + b);
        match vals.last().1 {
            Some(v) => {
                lemma_key_tokens_clean(v);
            },
            None => {},
        }
        assert forall|j: int| 0 <= j < (a + b).len() implies {
            let k = #[trigger] (a + b)[j];
            clean_key(k.2) && known_provider(k.0, k.1)
        } by {
            if j < a.len() {
                assert((a + b)[j] == a[j]);
            } else {
                assert((a + b)[j] == b[j - a.len()]);
                match vals.last().1 {
                    Some(v) => {
                        assert(clean_key(key_tokens(v)[j - a.len()]));
                    },
                    None => {},
                }
            }
        }
    }
}

/// The cursor of a pool after `calls` keys were handed out from a fresh one.
pub open spec fn cursor_after(calls: nat) -> usize
    decreases calls,
{
    if calls == 0 {
        0
    } else {
        next_cursor(cursor_after((calls - 1) as nat))
    }
}

/// Round-robin from the start: a fresh pool's cursor is 0 (`from_env`), and
/// each `next_key` hands out the key at the cursor modulo the number of keys
/// and advances it; so, up to `usize::MAX` calls, the key handed out by call
/// number `i` (counting from 0) is `keys[i % n]`.
pub proof fn law_round_robin_from_start(n: nat, i: nat)
    requires
        n > 0,
        i <= usize::MAX,
    ensures
        cursor_after(i) == i,
        cursor_after(i) as int % n as int == i as int % n as int,
    decreases i,
{
    if i > 0 {
        law_round_robin_from_start(n, (i - 1) as nat);
    }
}

/// Splitting at a separator splits each side of it on its own.
proof fn lemma_split_concat(a: Seq<char>, b: Seq<char>, sep: char)
    ensures
        split_char(a + seq![sep] + b, sep) == split_char(a, sep) + split_char(b, sep),
    decreases b.len(),
{
    lemma_split_char_nonempty(a, sep);
    let w = a + seq![sep] + b;
    if b.len() == 0 {
        assert(w =~= a.push(sep));
        assert(w.drop_last() =~= a);
        assert(split_char(a, sep) + split_char(b, sep) =~= split_char(a, sep).push(Seq::empty()));
    } else {
        let b0 = b.drop_last();
        lemma_split_concat(a, b0, sep);
        lemma_split_char_nonempty(b0, sep);
        assert(w.drop_last() =~= a + seq![sep] + b0);
        assert(w.last() == b.last());
        let x = split_char(a, sep);
        let y = split_char(b0, sep);
        if b.last() == sep {
            assert((x + y).push(Seq::empty()) =~= x + y.push(Seq::empty()));
        } else {
            assert((x + y).update((x + y).len() - 1, (x + y).last().push(b.last())) =~= x + y.update(
                y.len() - 1,
                y.last().push(b.last()),
            ));
        }
    }
}

/// Text without the separator is one piece.
proof fn lemma_split_without_sep(t: Seq<char>, sep: char)
    requires
        forall|i: int| 0 <= i < t.len() ==> t[i] != sep,
    ensures
        split_char(t, sep) == seq![t],
    decreases t.len(),
{
    if t.len() == 0 {
        assert(t =~= Seq::<char>::empty());
        assert(split_char(t, sep) =~= seq![t]);
    } else {
        let t0 = t.drop_last();
        lemma_split_without_sep(t0, sep);
        assert(t0.push(t.last()) =~= t);
        assert(seq![t0].update(0, t0.push(t.last())) =~= seq![t]);
    }
}

/// Dropping empty pieces works on each part of a sequence on its own.
proof fn lemma_non_empty_concat(x: Seq<Seq<char>>, y: Seq<Seq<char>>)
    ensures
        non_empty(x + y) == non_empty(x) + non_empty(y),
    decreases y.len(),
{
    if y.len() == 0 {
        assert(x + y =~= x);
        assert(non_empty(x) + non_empty(y) =~= non_empty(x));
    } else {
        let y0 = y.drop_last();
        lemma_non_empty_concat(x, y0);
        assert((x + y).drop_last() =~= x + y0);
        assert((x + y).last() == y.last());
        if y.last().len() > 0 {
            assert((non_empty(x) + non_empty(y0)).push(y.last()) =~= non_empty(x) + non_empty(y0).push(y.last()));
        }
    }
}

/// A value holding one clean key, whatever its length, gives exactly that
/// key.
pub proof fn law_clean_value_is_one_key(t: Seq<char>)
    requires
        clean_key(t),
    ensures
        key_tokens(t) == seq![t],
{
    lemma_split_without_sep(t, ',');
    assert(trim_all(seq![t]) =~= seq![trim(t)]);
    let one = seq![t];
    assert(one.drop_last() =~= Seq::<Seq<char>>::empty());
    assert(one.last() == t);
    assert(non_empty(one.drop_last()) == Seq::<Seq<char>>::empty());
    assert(non_empty(one) == non_empty(one.drop_last()).push(t));
    assert(non_empty(one) =~= seq![t]);
}

/// The keys of two lists joined by a comma are the keys of the first, then
/// those of the second: every non-empty trimmed piece becomes a key.
pub proof fn law_key_tokens_concat(a: Seq<char>, b: Seq<char>)
    ensures
        key_tokens(a + seq![','] + b) == key_tokens(a) + key_tokens(b),
{
    lemma_split_concat(a, b, ',');
    let x = split_char(a, ',');
    let y = split_char(b, ',');
    assert(trim_all(x + y) =~= trim_all(x) + trim_all(y));
    lemma_non_empty_concat(trim_all(x), trim_all(y));
}

} // verus!
