//! Config template substitution.
//!
//! Configuration text may hold `${name}` tokens.  Substitution scans the
//! text left to right; each token whose name is bound is replaced by the
//! binding's value, each token whose name is unbound is left verbatim
//! (wrapper included), and text between tokens is copied byte for byte.
//! A token's name is the shortest run of characters from the `${` up to the
//! next `}`; a `${` with no later `}` is ordinary text.

use crate::scan::str_eq;
use vstd::prelude::*;

verus! {

/// The index of the first `}` in `s` at or after `from`, or `s.len()` if
/// there is none.
pub open spec fn close_index(s: Seq<char>, from: int) -> int
    decreases s.len() - from when 0 <= from <= s.len()
{
    if from >= s.len() {
        s.len() as int
    } else if s[from] == '}' {
        from
    } else {
        close_index(s, from + 1)
    }
}

pub proof fn lemma_close_index(s: Seq<char>, from: int)
    requires
        0 <= from <= s.len(),
    ensures
        from <= close_index(s, from) <= s.len(),
        close_index(s, from) < s.len() ==> s[close_index(s, from)] == '}',
        forall|k: int| from <= k < close_index(s, from) ==> s[k] != '}',
    decreases s.len() - from,
{
    if from < s.len() && s[from] != '}' {
        lemma_close_index(s, from + 1);
    }
}

/// `close_index` picked out by its characteristic properties: `j` is the
/// first closing brace at or after `from`.
pub proof fn lemma_close_index_is(s: Seq<char>, from: int, j: int)
    requires
        0 <= from <= j <= s.len(),
        j < s.len() ==> s[j] == '}',
        forall|k: int| from <= k < j ==> s[k] != '}',
    ensures
        close_index(s, from) == j,
    decreases j - from,
{
    if from < j {
        lemma_close_index_is(s, from + 1, j);
    }
}

/// What substitution produces: scan `s` left to right; at a complete
/// `${name}` token emit the binding of `name` (or the token verbatim when
/// `name` is unbound) and resume after the token; elsewhere emit the
/// character as it stands.
pub open spec fn spec_substitute(s: Seq<char>, b: Map<Seq<char>, Seq<char>>) -> Seq<char>
    decreases s.len()
    via spec_substitute_decreases
{
    if s.len() == 0 {
        s
    } else if s.len() >= 2 && s[0] == '$' && s[1] == '{' && close_index(s, 2) < s.len() {
        let j = close_index(s, 2);
        let name = s.subrange(2, j);
        let rest = spec_substitute(s.subrange(j + 1, s.len() as int), b);
        if b.contains_key(name) {
            b[name] + rest
        } else {
            s.subrange(0, j + 1) + rest
        }
    } else {
        seq![s[0]] + spec_substitute(s.subrange(1, s.len() as int), b)
    }
}

#[via_fn]
proof fn spec_substitute_decreases(s: Seq<char>, b: Map<Seq<char>, Seq<char>>) {
    if s.len() >= 2 {
        lemma_close_index(s, 2);
    }
}

/// Whether the scan of `s` meets a complete `${name}` token whose name is
/// bound in `b` — that is, whether substitution would change `s` at all.
/// Tokens left verbatim by the scan do not count.
pub open spec fn has_bound_token(s: Seq<char>, b: Map<Seq<char>, Seq<char>>) -> bool
    decreases s.len()
    via has_bound_token_decreases
{
    if s.len() == 0 {
        false
    } else if s.len() >= 2 && s[0] == '$' && s[1] == '{' && close_index(s, 2) < s.len() {
        let j = close_index(s, 2);
        b.contains_key(s.subrange(2, j)) || has_bound_token(s.subrange(j + 1, s.len() as int), b)
    } else {
        has_bound_token(s.subrange(1, s.len() as int), b)
    }
}

#[via_fn]
proof fn has_bound_token_decreases(s: Seq<char>, b: Map<Seq<char>, Seq<char>>) {
    if s.len() >= 2 {
        lemma_close_index(s, 2);
    }
}

/// Whether a complete `${...}` token begins at position `i` of `s`: a `${`
/// there with a `}` later on.
pub open spec fn token_at(s: Seq<char>, i: int) -> bool {
    0 <= i && i + 1 < s.len() && s[i] == '$' && s[i + 1] == '{' && close_index(s, i + 2) < s.len()
}

/// Whether `s` holds a complete `${...}` token anywhere.
pub open spec fn has_token(s: Seq<char>) -> bool {
    exists|i: int| token_at(s, i)
}

/// The binding table seen as a map from variable name to value.  Pairs are
/// kept in insertion order; a name inserted twice keeps its later value.
pub open spec fn map_of_pairs(pairs: Seq<(String, String)>) -> Map<Seq<char>, Seq<char>>
    decreases pairs.len(),
{
    if pairs.len() == 0 {
        Map::empty()
    } else {
        map_of_pairs(pairs.drop_last()).insert(pairs.last().0@, pairs.last().1@)
    }
}

/// A mapping from variable name to its resolved value, built once at
/// startup before any substitution occurs.
pub struct VariableBindings {
    pairs: Vec<(String, String)>,
}

impl View for VariableBindings {
    type V = Map<Seq<char>, Seq<char>>;

    closed spec fn view(&self) -> Map<Seq<char>, Seq<char>> {
        map_of_pairs(self.pairs@)
    }
}

impl VariableBindings {
    pub fn new() -> (bindings: VariableBindings)
        ensures
            bindings@ == Map::<Seq<char>, Seq<char>>::empty(),
    {
        let bindings = VariableBindings { pairs: Vec::new() };
        proof {
            assert(bindings.pairs@.len() == 0);
        }
        bindings
    }

    /// Bind `name` to `value`, replacing any earlier binding of `name`.
    pub fn insert(&mut self, name: String, value: String)
        ensures
            final(self)@ == old(self)@.insert(name@, value@),
    {
        let ghost old_pairs = self.pairs@;
        self.pairs.push((name, value));
        proof {
            assert(self.pairs@.drop_last() =~= old_pairs);
        }
    }

    /// Look `name` up, returning its value if it is bound.
    pub fn get(&self, name: &str) -> (r: Option<String>)
        ensures
            match r {
                Some(value) => self@.contains_key(name@) && value@ == self@[name@],
                None => !self@.contains_key(name@),
            },
    {
        let mut k: usize = self.pairs.len();
        while k > 0
            invariant
                k <= self.pairs.len(),
                forall|t: int| k <= t < self.pairs@.len() ==> self.pairs@[t].0@ != name@,
            decreases k,
        {
            k = k - 1;
            if str_eq(self.pairs[k].0.as_str(), name) {
                let value = self.pairs[k].1.clone();
                proof {
                    lemma_map_of_pairs_last_match(self.pairs@, name@, k as int);
                }
                return Some(value);
            }
        }
        proof {
            lemma_map_of_pairs_no_match(self.pairs@, name@);
        }
        None
    }
}

/// A name bound at `k` and at no later index has `k`'s value in the map.
proof fn lemma_map_of_pairs_last_match(pairs: Seq<(String, String)>, name: Seq<char>, k: int)
    requires
        0 <= k < pairs.len(),
        pairs[k].0@ == name,
        forall|t: int| k < t < pairs.len() ==> pairs[t].0@ != name,
    ensures
        map_of_pairs(pairs).contains_key(name),
        map_of_pairs(pairs)[name] == pairs[k].1@,
    decreases pairs.len(),
{
    if k == pairs.len() - 1 {
    } else {
        lemma_map_of_pairs_last_match(pairs.drop_last(), name, k);
    }
}

/// A name bound at no index is absent from the map.
proof fn lemma_map_of_pairs_no_match(pairs: Seq<(String, String)>, name: Seq<char>)
    requires
        forall|t: int| 0 <= t < pairs.len() ==> pairs[t].0@ != name,
    ensures
        !map_of_pairs(pairs).contains_key(name),
    decreases pairs.len(),
{
    if pairs.len() > 0 {
        lemma_map_of_pairs_no_match(pairs.drop_last(), name);
    }
}

/// The index of the first `}` in `s` at or after `from`, or `s`'s length
/// if there is none.
fn find_close(s: &str, from: usize, n: usize) -> (j: usize)
    requires
        n == s@.len(),
        from <= n,
    ensures
        from <= j <= n,
        forall|k: int| from <= k < j ==> s@[k] != '}',
        j < n ==> s@[j as int] == '}',
{
    let mut j: usize = from;
    while j < n
        invariant
            n == s@.len(),
            from <= j <= n,
            forall|k: int| from <= k < j ==> s@[k] != '}',
        decreases n - j,
    {
        if s.get_char(j) == '}' {
            return j;
        }
        j = j + 1;
    }
    j
}

/// Rewrite every `${name}` token of `template` whose name is bound in
/// `bindings` to the binding's value, leaving unmatched tokens and the text
/// between tokens verbatim.  Pure and total: no input fails.
pub fn substitute_bindings_in_string(template: &str, bindings: &VariableBindings) -> (r: String)
    ensures
        r@ == spec_substitute(template@, bindings@),
{
    let n: usize = template.unicode_len();
    let mut out: String = String::new();
    let mut i: usize = 0;
    proof {
        assert(template@.subrange(0, n as int) =~= template@);
        assert(out@ + spec_substitute(template@, bindings@) =~= spec_substitute(
            template@,
            bindings@,
        ));
    }
    while i < n
        invariant
            n == template@.len(),
            i <= n,
            out@ + spec_substitute(template@.subrange(i as int, n as int), bindings@)
                == spec_substitute(template@, bindings@),
        decreases n - i,
    {
        let ghost sfx = template@.subrange(i as int, n as int);
        if i + 1 < n && template.get_char(i) == '$' && template.get_char(i + 1) == '{' {
            let j = find_close(template, i + 2, n);
            if j < n {
                proof {
                    assert forall|k: int| 2 <= k < j - i implies sfx[k] != '}' by {
                        assert(sfx[k] == template@[i + k]);
                    }
                    assert(sfx[(j - i) as int] == template@[j as int]);
                    lemma_close_index_is(sfx, 2, j - i);
                }
                let name_str = template.substring_char(i + 2, j);
                proof {
                    assert(name_str@ =~= sfx.subrange(2, j - i));
                    assert(sfx.subrange(j - i + 1, sfx.len() as int) =~= template@.subrange(
                        j + 1,
                        n as int,
                    ));
                }
                let ghost rest = spec_substitute(template@.subrange(j + 1, n as int), bindings@);
                match bindings.get(name_str) {
                    Some(value) => {
                        proof {
                            assert(spec_substitute(sfx, bindings@) == value@ + rest);
                            assert((out@ + value@) + rest =~= out@ + (value@ + rest));
                        }
                        out.append(value.as_str());
                    },
                    None => {
                        let token = template.substring_char(i, j + 1);
                        proof {
                            assert(token@ =~= sfx.subrange(0, j - i + 1));
                            assert(spec_substitute(sfx, bindings@) == token@ + rest);
                            assert((out@ + token@) + rest =~= out@ + (token@ + rest));
                        }
                        out.append(token);
                    },
                }
                i = j + 1;
            } else {
                proof {
                    assert forall|k: int| 2 <= k < sfx.len() implies sfx[k] != '}' by {
                        assert(sfx[k] == template@[i + k]);
                    }
                    lemma_close_index_is(sfx, 2, sfx.len() as int);
                }
                copy_one_char(template, i, n, &mut out, Ghost(bindings@));
                i = i + 1;
            }
        } else {
            copy_one_char(template, i, n, &mut out, Ghost(bindings@));
            i = i + 1;
        }
    }
    proof {
        assert(template@.subrange(n as int, n as int).len() == 0);
        assert(out@ + spec_substitute(template@.subrange(n as int, n as int), bindings@) =~= out@);
    }
    out
}

/// Copy the character at `i` to the output, at a position where the scan
/// does not stand on a complete token.
fn copy_one_char(template: &str, i: usize, n: usize, out: &mut String, Ghost(b): Ghost<
    Map<Seq<char>, Seq<char>>,
>)
    requires
        n == template@.len(),
        i < n,
        !(n - i >= 2 && template@[i as int] == '$' && template@[i + 1] == '{' && close_index(
            template@.subrange(i as int, n as int),
            2,
        ) < n - i),
    ensures
        final(out)@ + spec_substitute(template@.subrange(i + 1, n as int), b) == old(out)@
            + spec_substitute(template@.subrange(i as int, n as int), b),
{
    proof {
        let sfx = template@.subrange(i as int, n as int);
        assert(template@.subrange(i as int, i + 1) =~= seq![sfx[0]]);
        assert(sfx.subrange(1, sfx.len() as int) =~= template@.subrange(i + 1, n as int));
        assert(spec_substitute(sfx, b) == seq![sfx[0]] + spec_substitute(
            template@.subrange(i + 1, n as int),
            b,
        ));
        assert((old(out)@ + seq![sfx[0]]) + spec_substitute(template@.subrange(i + 1, n as int), b)
            =~= old(out)@ + (seq![sfx[0]] + spec_substitute(
            template@.subrange(i + 1, n as int),
            b,
        )));
    }
    out.append(template.substring_char(i, i + 1));
}

/// Substitution leaves a text without bound tokens unchanged: when no
/// complete `${name}` token of `s` has its name bound in `b`, the scan
/// copies every character verbatim.
pub proof fn lemma_substitute_no_bound_token(s: Seq<char>, b: Map<Seq<char>, Seq<char>>)
    requires
        !has_bound_token(s, b),
    ensures
        spec_substitute(s, b) == s,
    decreases s.len(),
{
    if s.len() == 0 {
    } else if s.len() >= 2 && s[0] == '$' && s[1] == '{' && close_index(s, 2) < s.len() {
        let j = close_index(s, 2);
        lemma_close_index(s, 2);
        lemma_substitute_no_bound_token(s.subrange(j + 1, s.len() as int), b);
        assert(s.subrange(0, j + 1) + s.subrange(j + 1, s.len() as int) =~= s);
    } else {
        lemma_substitute_no_bound_token(s.subrange(1, s.len() as int), b);
        assert(seq![s[0]] + s.subrange(1, s.len() as int) =~= s);
    }
}

/// Substitution is idempotent once its output holds no further bound
/// token: substituting a second time with the same binding table changes
/// nothing.
pub proof fn lemma_substitute_idempotent(s: Seq<char>, b: Map<Seq<char>, Seq<char>>)
    requires
        !has_bound_token(spec_substitute(s, b), b),
    ensures
        spec_substitute(spec_substitute(s, b), b) == spec_substitute(s, b),
{
    lemma_substitute_no_bound_token(spec_substitute(s, b), b);
}

/// Substitution is a no-op on a template that holds no `${...}` token at
/// all, whatever the binding table.
pub proof fn lemma_substitute_no_token(s: Seq<char>, b: Map<Seq<char>, Seq<char>>)
    requires
        !has_token(s),
    ensures
        spec_substitute(s, b) == s,
    decreases s.len(),
{
    if s.len() == 0 {
    } else {
        assert(!(s.len() >= 2 && s[0] == '$' && s[1] == '{' && close_index(s, 2) < s.len())) by {
            if s.len() >= 2 && s[0] == '$' && s[1] == '{' && close_index(s, 2) < s.len() {
                assert(close_index(s, 0int + 2) < s.len());
                assert(token_at(s, 0));
            }
        }
        let s1 = s.subrange(1, s.len() as int);
        assert(!has_token(s1)) by {
            if has_token(s1) {
                let i = choose|i: int| token_at(s1, i);
                let j1 = close_index(s1, i + 2);
                lemma_close_index(s1, i + 2);
                assert forall|k: int| i + 3 <= k < j1 + 1 implies s[k] != '}' by {
                    assert(s[k] == s1[k - 1]);
                }
                assert(s[j1 + 1] == s1[j1]);
                lemma_close_index_is(s, i + 3, j1 + 1);
                assert(s[i + 1] == s1[i] && s[i + 2] == s1[i + 1]);
                assert(close_index(s, (i + 1) + 2) < s.len());
                assert(token_at(s, i + 1));
            }
        }
        lemma_substitute_no_token(s1, b);
        assert(seq![s[0]] + s1 =~= s);
    }
}

} // verus!
