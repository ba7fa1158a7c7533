//! Decomposition of an exec command template into an argument vector:
//! the field placeholders are stripped, the rest is split into shell
//! words, and the first word names the executable.

use vstd::prelude::*;

verus! {

/// Removal of every `%` + marker pair from the sequence, scanning left
/// to right without rescanning what a removal joins, as `str::replace`
/// with an empty replacement does.
pub open spec fn strip_token(s: Seq<char>, marker: char) -> Seq<char>
    decreases s.len(),
{
    if s.len() == 0 {
        Seq::empty()
    } else if s.len() >= 2 && s[0] == '%' && s[1] == marker {
        strip_token(s.skip(2), marker)
    } else {
        seq![s[0]] + strip_token(s.skip(1), marker)
    }
}

/// The exec template with the four field placeholders removed: one pass
/// for `%U`, then `%F`, then `%u`, then `%f`.
pub open spec fn stripped_template(s: Seq<char>) -> Seq<char> {
    strip_token(strip_token(strip_token(strip_token(s, 'U'), 'F'), 'u'), 'f')
}

/// Shell-word splitting of a command line, as `shlex::Shlex` yields it:
/// quoting and escaping honoured, no expansion; a function of the
/// characters alone.
pub uninterp spec fn shell_words(s: Seq<char>) -> Seq<Seq<char>>;

/// Relies on `shlex::Shlex`: splits a command line into shell words,
/// honouring quoting and escaping; the words depend on the input alone.
#[verifier::external_body]
fn shell_split(s: &str) -> (r: Vec<String>)
    ensures
        r.deep_view() == shell_words(s@),
{
    shlex::Shlex::new(s).collect()
}

/// One replacement pass: removes every occurrence of `%` followed by
/// `marker`.
fn strip_one(s: &str, marker: char) -> (r: String)
    ensures
        r@ == strip_token(s@, marker),
{
    let n = s.unicode_len();
    let mut r = String::new();
    let mut i: usize = 0;
    proof {
        assert(s@.skip(0) =~= s@);
        assert(strip_token(s@, marker) =~= r@ + strip_token(s@, marker));
    }
    while i < n
        invariant
            n == s@.len(),
            i <= n,
            strip_token(s@, marker) =~= r@ + strip_token(s@.skip(i as int), marker),
        decreases n - i,
    {
        let c = s.get_char(i);
        proof {
            assert(s@.skip(i as int)[0] == s@[i as int]);
        }
        if c == '%' && i + 1 < n && s.get_char(i + 1) == marker {
            proof {
                assert(s@.skip(i as int)[1] == s@[i as int + 1]);
                assert(s@.skip(i as int).skip(2) =~= s@.skip(i as int + 2));
            }
            i = i + 2;
        } else {
            proof {
                assert(s@.skip(i as int).skip(1) =~= s@.skip(i as int + 1));
                if s@.skip(i as int).len() >= 2 {
                    assert(s@.skip(i as int)[1] == s@[i as int + 1]);
                }
            }
            r.push(c);
            i = i + 1;
        }
    }
    proof {
        assert(s@.skip(n as int) =~= Seq::<char>::empty());
    }
    r
}

/// Strips the four field placeholders (`%U`, `%F`, `%u`, `%f`) from an
/// exec template; this launcher never supplies file or URL arguments.
pub fn strip_placeholders(s: &str) -> (r: String)
    ensures
        r@ == stripped_template(s@),
{
    let a = strip_one(s, 'U');
    let b = strip_one(a.as_str(), 'F');
    let c = strip_one(b.as_str(), 'u');
    strip_one(c.as_str(), 'f')
}

/// Tokenizes an exec template: placeholders stripped, then shell-word
/// splitting.
pub fn tokenize_exec(exec: &str) -> (r: Vec<String>)
    ensures
        r.deep_view() == shell_words(stripped_template(exec@)),
{
    let s = strip_placeholders(exec);
    shell_split(s.as_str())
}

/// Splits an exec template into the executable and its arguments.
/// Returns `None` exactly when the stripped template holds no word.
pub fn prepare_launch(exec: &str) -> (r: Option<(String, Vec<String>)>)
    ensures
        ({
            let words = shell_words(stripped_template(exec@));
            match r {
                None => words.len() == 0,
                Some((cmd, args)) => words.len() > 0 && cmd@ == words[0] && args.deep_view()
                    == words.skip(1),
            }
        }),
{
    let mut words = tokenize_exec(exec);
    if words.len() == 0 {
        None
    } else {
        let ghost all = words.deep_view();
        let cmd = words.remove(0);
        proof {
            assert(words.deep_view() =~= all.skip(1)) by {
                assert(forall|k: int|
                    0 <= k < words@.len() ==> words@[k].deep_view() == #[trigger] words.deep_view()[k]);
            }
        }
        Some((cmd, words))
    }
}

} // verus!
