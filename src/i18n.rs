use vstd::prelude::*;
use vstd::string::StringExecFns;

verus! {

/// The text obtained by replacing, from left to right, each `{}` hole of
/// `s` by the next argument. At the first hole for which no argument is
/// left, the text ends.
pub open spec fn fill_holes(s: Seq<char>, args: Seq<Seq<char>>) -> Seq<char>
    decreases s.len(),
{
    if s.len() == 0 {
        Seq::empty()
    } else if s.len() >= 2 && s[0] == '{' && s[1] == '}' {
        if args.len() == 0 {
            Seq::empty()
        } else {
            args[0] + fill_holes(s.subrange(2, s.len() as int), args.drop_first())
        }
    } else {
        seq![s[0]] + fill_holes(s.drop_first(), args)
    }
}

pub open spec fn views_of(args: Seq<&str>) -> Seq<Seq<char>> {
    args.map_values(|a: &str| a@)
}

/// Replaces positional `{}` holes in a translated string by `args`.
pub fn freplace(input: String, args: &[&str]) -> (r: String)
    ensures
        r@ == fill_holes(input@, views_of(args@)),
{
    let s = input.as_str();
    let n = s.unicode_len();
    let mut out = String::new();
    let mut start: usize = 0;
    let mut i: usize = 0;
    let mut k: usize = 0;
    assert(s@.subrange(0, n as int) =~= s@);
    assert(views_of(args@).subrange(0, args@.len() as int) =~= views_of(args@));
    assert(out@ + s@.subrange(0, 0) =~= Seq::<char>::empty());
    while i < n
        invariant
            n == s@.len(),
            s@ == input@,
            start <= i <= n,
            k <= args@.len(),
            out@ + s@.subrange(start as int, i as int) + fill_holes(
                s@.subrange(i as int, n as int),
                views_of(args@).subrange(k as int, args@.len() as int),
            ) == fill_holes(s@, views_of(args@)),
        decreases n - i,
    {
        let ghost rest = s@.subrange(i as int, n as int);
        let ghost rargs = views_of(args@).subrange(k as int, args@.len() as int);
        if i + 1 < n && s.get_char(i) == '{' && s.get_char(i + 1) == '}' {
            assert(rest[0] == '{' && rest[1] == '}');
            if k == args.len() {
                assert(fill_holes(rest, rargs) == Seq::<char>::empty());
                let lit = s.substring_char(start, i);
                out.append(lit);
                assert(out@ == fill_holes(s@, views_of(args@)));
                return out;
            }
            let lit = s.substring_char(start, i);
            out.append(lit);
            out.append(args[k]);
            assert(rest.subrange(2, rest.len() as int) =~= s@.subrange(i + 2, n as int));
            assert(rargs.drop_first() =~= views_of(args@).subrange(k + 1, args@.len() as int));
            assert(rargs[0] == args@[k as int]@);
            i = i + 2;
            k = k + 1;
            start = i;
            assert(s@.subrange(start as int, i as int) =~= Seq::<char>::empty());
        } else {
            assert(rest.drop_first() =~= s@.subrange(i + 1, n as int));
            assert(s@.subrange(start as int, i + 1) =~= s@.subrange(start as int, i as int) + seq![
                rest[0],
            ]);
            i = i + 1;
        }
    }
    let lit = s.substring_char(start, n);
    out.append(lit);
    assert(fill_holes(s@.subrange(n as int, n as int), views_of(args@).subrange(k as int, args@.len() as int)) =~= Seq::<char>::empty()) by {
        assert(s@.subrange(n as int, n as int).len() == 0);
    }
    assert(out@ =~= fill_holes(s@, views_of(args@)));
    out
}

} // verus!

verus! {

/// What replacing every match of regular expression `pattern` in
/// `haystack` by the literal `replacement` gives; `None` when `pattern` is
/// not a valid regular expression.
pub uninterp spec fn regex_replaced(pattern: Seq<char>, haystack: Seq<char>, replacement: Seq<char>) -> Option<
    Seq<char>,
>;

/// Relies on `regex::Regex::new`, which compiles `pattern` or fails, and on
/// `Regex::replace_all` with `regex::NoExpand`, which replaces every
/// non-overlapping match in `haystack` by `replacement` taken literally.
#[verifier::external_body]
fn regex_replace_all(pattern: &str, haystack: &str, replacement: &str) -> (r: Option<String>)
    ensures
        match r {
            Some(s) => regex_replaced(pattern@, haystack@, replacement@) == Some(s@),
            None => regex_replaced(pattern@, haystack@, replacement@) is None,
        },
{
    match regex::Regex::new(pattern) {
        Ok(re) => Some(re.replace_all(haystack, regex::NoExpand(replacement)).into_owned()),
        Err(_) => None,
    }
}

/// The regular expression that matches the placeholder `{key}`.
pub open spec fn brace_pattern_of(key: Seq<char>) -> Seq<char> {
    "\\{"@ + key + "\\}"@
}

/// Builds the regular expression for the placeholder `{key}`.
pub fn brace_pattern(key: &str) -> (r: String)
    ensures
        r@ == brace_pattern_of(key@),
{
    String::from_str("\\{").concat(key).concat("\\}")
}

/// The text after one substitution: the replaced text where the pattern
/// compiled, the text unchanged otherwise.
pub fn substituted(current: String, replaced: Option<String>) -> (r: String)
    ensures
        r@ == match replaced {
            Some(u) => u@,
            None => current@,
        },
{
    match replaced {
        Some(u) => u,
        None => current,
    }
}

/// The text once each `{key}` placeholder, key by key in order, is replaced
/// by its value.
pub open spec fn fill_named(s: Seq<char>, kwargs: Seq<(Seq<char>, Seq<char>)>) -> Seq<char>
    decreases kwargs.len(),
{
    if kwargs.len() == 0 {
        s
    } else {
        let t = fill_named(s, kwargs.drop_last());
        match regex_replaced(brace_pattern_of(kwargs.last().0), t, kwargs.last().1) {
            Some(u) => u,
            None => t,
        }
    }
}

pub open spec fn kwargs_view(kwargs: Seq<(&str, &str)>) -> Seq<(Seq<char>, Seq<char>)> {
    kwargs.map_values(|p: (&str, &str)| (p.0@, p.1@))
}

/// Replaces named `{key}` placeholders in a translated string.
pub fn kreplace(input: String, kwargs: &[(&str, &str)]) -> (r: String)
    ensures
        r@ == fill_named(input@, kwargs_view(kwargs@)),
{
    let ghost kv = kwargs_view(kwargs@);
    let mut s = input;
    let mut i: usize = 0;
    while i < kwargs.len()
        invariant
            i <= kwargs@.len(),
            kv == kwargs_view(kwargs@),
            s@ == fill_named(input@, kv.take(i as int)),
        decreases kwargs.len() - i,
    {
        let (k, v) = kwargs[i];
        let pattern = brace_pattern(k);
        let replaced = regex_replace_all(pattern.as_str(), s.as_str(), v);
        s = substituted(s, replaced);
        assert(kv.take(i + 1).drop_last() =~= kv.take(i as int));
        assert(kv.take(i + 1).last() == kv[i as int]);
        i = i + 1;
    }
    assert(kv.take(kwargs@.len() as int) =~= kv);
    s
}

} // verus!
