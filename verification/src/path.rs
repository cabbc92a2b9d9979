//! Client paths and their confinement to the storage root.

use vstd::prelude::*;
use vstd::std_specs::iter::IteratorSpec;

verus! {

/// The character that separates the components of a path.
pub open spec fn is_separator(c: char) -> bool {
    c == '/'
}

/// A parent reference starts at index `i` of `s`: two dots in a row.
pub open spec fn parent_ref_at(s: Seq<char>, i: int) -> bool {
    0 <= i && i + 1 < s.len() && s[i] == '.' && s[i + 1] == '.'
}

/// `s` holds two dots in a row somewhere.
pub open spec fn has_parent_ref(s: Seq<char>) -> bool {
    exists|i: int| parent_ref_at(s, i)
}

/// Tells whether `s` holds two dots in a row, at any position.
pub fn contains_parent_ref(s: &str) -> (found: bool)
    ensures
        found == has_parent_ref(s@),
{
    let mut rest = s.chars();
    let mut after_dot = false;
    let ghost mut seen: int = 0;
    loop
        invariant
            0 <= seen <= s@.len(),
            rest.remaining() == s@.skip(seen),
            after_dot == (seen > 0 && s@[seen - 1] == '.'),
            forall|i: int| 0 <= i && i + 1 < seen ==> !parent_ref_at(s@, i),
        decreases s@.len() - seen,
    {
        match rest.next() {
            None => {
                return false;
            },
            Some(c) => {
                if c == '.' && after_dot {
                    assert(parent_ref_at(s@, seen - 1));
                    return true;
                }
                after_dot = c == '.';
                proof {
                    assert(s@.skip(seen).drop_first() =~= s@.skip(seen + 1));
                    seen = seen + 1;
                }
            },
        }
    }
}

/// `s` without the separators it starts with.
pub open spec fn trim_leading(s: Seq<char>) -> Seq<char>
    decreases s.len(),
{
    if s.len() > 0 && is_separator(s[0]) {
        trim_leading(s.drop_first())
    } else {
        s
    }
}

/// What `trim_leading` amounts to: it drops a run of separators from the
/// front, all of them, and nothing else.
pub proof fn lemma_trim_leading(s: Seq<char>)
    ensures
        trim_leading(s).len() <= s.len(),
        trim_leading(s) == s.skip(s.len() - trim_leading(s).len()),
        forall|i: int| 0 <= i < s.len() - trim_leading(s).len() ==> is_separator(s[i]),
        trim_leading(s).len() > 0 ==> !is_separator(trim_leading(s)[0]),
    decreases s.len(),
{
    if s.len() > 0 && is_separator(s[0]) {
        let tail = s.drop_first();
        lemma_trim_leading(tail);
        let cut = tail.len() - trim_leading(tail).len();
        assert(tail.skip(cut) =~= s.skip(cut + 1));
        assert forall|i: int| 0 <= i < s.len() - trim_leading(s).len() implies is_separator(
            s[i],
        ) by {
            if i > 0 {
                assert(s[i] == tail[i - 1]);
            }
        }
    } else {
        assert(s.skip(0) =~= s);
    }
}

/// What trimming makes of two texts in a row: the first one trimmed and
/// then the second, unless the first is separators only.
pub proof fn lemma_trim_leading_of_two(a: Seq<char>, b: Seq<char>)
    ensures
        trim_leading(a + b) == if trim_leading(a).len() > 0 {
            trim_leading(a) + b
        } else {
            trim_leading(b)
        },
    decreases a.len(),
{
    if a.len() == 0 {
        assert(a + b =~= b);
    } else if is_separator(a[0]) {
        assert((a + b).drop_first() =~= a.drop_first() + b);
        lemma_trim_leading_of_two(a.drop_first(), b);
    }
}

/// Drops the separators that `s` starts with.
pub fn trim_leading_separators<'a>(s: &'a str) -> (t: &'a str)
    ensures
        t@ == trim_leading(s@),
{
    let total: usize = s.unicode_len();
    let mut rest = s.chars();
    let mut cut: usize = 0;
    loop
        invariant_except_break
            rest.remaining() == s@.skip(cut as int),
        invariant
            cut <= total == s@.len(),
            trim_leading(s@) == trim_leading(s@.skip(cut as int)),
        ensures
            cut <= total == s@.len(),
            trim_leading(s@) == s@.skip(cut as int),
        decreases total - cut,
    {
        match rest.next() {
            Some(c) if c == '/' => {
                proof {
                    assert(s@.skip(cut as int).drop_first() =~= s@.skip(cut + 1));
                }
                cut = cut + 1;
            },
            _ => {
                break ;
            },
        }
    }
    let t = s.substring_char(cut, total);
    proof {
        assert(s@.subrange(cut as int, total as int) =~= s@.skip(cut as int));
    }
    t
}

/// `sub` placed under `base`: the two texts in a row, with one separator
/// between them unless `base` is empty or already ends with one.
pub open spec fn joined(base: Seq<char>, sub: Seq<char>) -> Seq<char> {
    if base.len() > 0 && !is_separator(base.last()) {
        base + seq!['/'] + sub
    } else {
        base + sub
    }
}

/// Places `sub` under `base`.
pub fn join(base: &str, sub: &str) -> (path: String)
    ensures
        path@ == joined(base@, sub@),
{
    let n: usize = base.unicode_len();
    let mut path = String::from_str(base);
    if n > 0 && base.get_char(n - 1) != '/' {
        proof {
            reveal_strlit("/");
            assert("/"@ =~= seq!['/']);
        }
        path.append("/");
    }
    path.append(sub);
    path
}

/// `p` with every run of separators cut down to one separator. The disk
/// takes a run of separators for one, so two paths that are alike once
/// squeezed name the same place.
pub open spec fn squeezed(p: Seq<char>) -> Seq<char>
    decreases p.len(),
{
    if p.len() == 0 {
        p
    } else if p.len() >= 2 && is_separator(p.last()) && is_separator(p[p.len() - 2]) {
        squeezed(p.drop_last())
    } else {
        squeezed(p.drop_last()).push(p.last())
    }
}

/// One separator more behind a separator changes nothing once squeezed,
/// whatever single component follows.
pub proof fn lemma_squeezed_extra_separator(front: Seq<char>, name: Seq<char>)
    requires
        front.len() > 0,
        is_separator(front.last()),
        forall|k: int| 0 <= k < name.len() ==> !is_separator(#[trigger] name[k]),
    ensures
        squeezed(front + seq!['/'] + name) == squeezed(front + name),
    decreases name.len(),
{
    let long = front + seq!['/'] + name;
    let short = front + name;
    if name.len() == 0 {
        assert(long.drop_last() =~= front);
        assert(short =~= front);
    } else {
        let rest = name.drop_last();
        lemma_squeezed_extra_separator(front, rest);
        assert(long.drop_last() =~= front + seq!['/'] + rest);
        assert(short.drop_last() =~= front + rest);
        assert(long.last() == name.last());
        assert(short.last() == name.last());
    }
}

/// `p[i..j]` is a component of `p`: a run of characters without a
/// separator, not empty, that cannot be made longer at either end.
pub open spec fn component_at(p: Seq<char>, i: int, j: int) -> bool {
    &&& 0 <= i < j <= p.len()
    &&& forall|k: int| i <= k < j ==> !is_separator(#[trigger] p[k])
    &&& (i == 0 || is_separator(p[i - 1]))
    &&& (j == p.len() || is_separator(p[j]))
}

/// The component that stands for the directory it is found in: one dot.
pub open spec fn is_current_dir(c: Seq<char>) -> bool {
    c.len() == 1 && c[0] == '.'
}

/// `p[i..j]` is a component of `p` other than a single dot.
pub open spec fn name_at(p: Seq<char>, i: int, j: int) -> bool {
    component_at(p, i, j) && !is_current_dir(p.subrange(i, j))
}

/// `p` has a component other than a single dot.
pub open spec fn has_name(p: Seq<char>) -> bool {
    exists|i: int, j: int| name_at(p, i, j)
}

/// `p[i..j]` is the last component of `p` other than a single dot.
pub open spec fn final_name_at(p: Seq<char>, i: int, j: int) -> bool {
    &&& name_at(p, i, j)
    &&& forall|a: int, b: int| j <= a ==> !#[trigger] name_at(p, a, b)
}

/// Where the last component of `p` other than a single dot starts and ends.
pub open spec fn final_name_span(p: Seq<char>) -> (int, int) {
    choose|span: (int, int)| final_name_at(p, span.0, span.1)
}

/// The last component of `p` other than a single dot: what `p` names.
pub open spec fn final_name(p: Seq<char>) -> Seq<char> {
    p.subrange(final_name_span(p).0, final_name_span(p).1)
}

/// Two components of one path that share a character are the same one.
pub proof fn lemma_components_apart(p: Seq<char>, i: int, j: int, a: int, b: int)
    requires
        component_at(p, i, j),
        component_at(p, a, b),
        i <= a < j,
    ensures
        i == a,
        j == b,
{
    if i < a {
        assert(!is_separator(p[a - 1]));
    }
    if j < b {
        assert(!is_separator(p[j]));
    }
    if b < j {
        assert(!is_separator(p[b]));
    }
}

/// A path has at most one final name, so `final_name_span` is the span of
/// any component that qualifies.
pub proof fn lemma_final_name_unique(p: Seq<char>, i: int, j: int)
    requires
        final_name_at(p, i, j),
    ensures
        final_name_span(p) == (i, j),
        final_name(p) == p.subrange(i, j),
{
    let span = final_name_span(p);
    assert(final_name_at(p, (i, j).0, (i, j).1));
    assert(final_name_at(p, span.0, span.1));
    assert(!name_at(p, i, j) || i < span.1);
    assert(!name_at(p, span.0, span.1) || span.0 < j);
    if i <= span.0 {
        lemma_components_apart(p, i, j, span.0, span.1);
    } else {
        lemma_components_apart(p, span.0, span.1, i, j);
    }
}

/// A path with a component other than a single dot has a last such
/// component.
pub proof fn lemma_final_name_exists(p: Seq<char>, i: int, j: int)
    requires
        name_at(p, i, j),
    ensures
        final_name_at(p, final_name_span(p).0, final_name_span(p).1),
    decreases p.len() - i,
{
    if forall|a: int, b: int| j <= a ==> !#[trigger] name_at(p, a, b) {
        assert(final_name_at(p, (i, j).0, (i, j).1));
    } else {
        let later = choose|a: int, b: int| j <= a && #[trigger] name_at(p, a, b);
        lemma_final_name_exists(p, later.0, later.1);
    }
}

/// Finds the last component of `p` other than a single dot.
pub fn final_component(p: &str) -> (span: Option<(usize, usize)>)
    ensures
        span is Some <==> has_name(p@),
        span matches Some((i, j)) ==> final_name_at(p@, i as int, j as int),
{
    let total: usize = p.unicode_len();
    let mut rest = p.chars();
    let mut at: usize = 0;
    let mut start: usize = 0;
    let mut starts_with_dot = false;
    let mut best: Option<(usize, usize)> = None;
    loop
        invariant_except_break
            rest.remaining() == p@.skip(at as int),
        invariant
            start <= at <= total == p@.len(),
            start == 0 || is_separator(p@[start - 1]),
            forall|k: int| start <= k < at ==> !is_separator(#[trigger] p@[k]),
            start < at ==> starts_with_dot == (p@[start as int] == '.'),
            best matches Some((i, j)) ==> name_at(p@, i as int, j as int) && j < start,
            forall|a: int, b: int|
                b < start && (best matches Some((i, j)) ==> j <= a) ==> !#[trigger] name_at(
                    p@,
                    a,
                    b,
                ),
        ensures
            at == total,
        decreases total - at,
    {
        match rest.next() {
            None => {
                break ;
            },
            Some(c) => {
                proof {
                    assert(p@.skip(at as int).drop_first() =~= p@.skip(at + 1));
                }
                if c == '/' {
                    let named = start < at && !(at - start == 1 && starts_with_dot);
                    proof {
                        let ghost_best = best;
                        assert forall|a: int, b: int|
                            b < at + 1 && (if named {
                                at <= a
                            } else {
                                ghost_best matches Some((i, j)) ==> j <= a
                            }) implies !#[trigger] name_at(p@, a, b) by {
                            if name_at(p@, a, b) && start <= b {
                                lemma_run_is_component(p@, start as int, at as int, a, b);
                                assert(p@.subrange(a, b)[0] == p@[a]);
                            }
                        }
                        if named {
                            assert(p@.subrange(start as int, at as int)[0] == p@[start as int]);
                        }
                    }
                    if named {
                        best = Some((start, at));
                    }
                    start = at + 1;
                } else if start == at {
                    starts_with_dot = c == '.';
                }
                at = at + 1;
            },
        }
    }
    let named = start < at && !(at - start == 1 && starts_with_dot);
    proof {
        assert forall|a: int, b: int|
            (if named {
                at <= a
            } else {
                best matches Some((i, j)) ==> j <= a
            }) implies !#[trigger] name_at(p@, a, b) by {
            if name_at(p@, a, b) && start <= b {
                lemma_run_is_component(p@, start as int, at as int, a, b);
                assert(p@.subrange(a, b)[0] == p@[a]);
            }
        }
        if named {
            assert(p@.subrange(start as int, at as int)[0] == p@[start as int]);
            assert(name_at(p@, start as int, at as int));
        }
    }
    if named {
        Some((start, at))
    } else {
        best
    }
}

/// Past a separator (or the start) at `start`, with no separator up to
/// `at`, a component that ends at or after `start` and not after `at`,
/// where `at` is the end of the text or holds a separator, is the run from
/// `start` to `at` itself.
proof fn lemma_run_is_component(p: Seq<char>, start: int, at: int, a: int, b: int)
    requires
        0 <= start <= at <= p.len(),
        start == 0 || is_separator(p[start - 1]),
        forall|k: int| start <= k < at ==> !is_separator(#[trigger] p[k]),
        at == p.len() || is_separator(p[at]),
        component_at(p, a, b),
        start <= b <= at,
    ensures
        a == start,
        b == at,
        start < at,
{
    if a < start {
        assert(!is_separator(p[start - 1]));
    }
    if a > start {
        assert(!is_separator(p[a - 1]));
    }
    if b < at {
        assert(!is_separator(p[b]));
    }
}

/// The directory that holds everything the service stores.
pub open spec fn root_text() -> Seq<char> {
    "storage"@
}

/// The directory that holds everything the service stores.
pub fn storage_root() -> (root: &'static str)
    ensures
        root@ == root_text(),
{
    "storage"
}

/// Where a client path leads: under the root, past the separators it
/// starts with.
pub open spec fn resolved(sub: Seq<char>) -> Seq<char> {
    joined(root_text(), trim_leading(sub))
}

/// `p` lies under the storage root and nowhere steps up to a parent.
pub open spec fn confined(p: Seq<char>) -> bool {
    &&& root_text().len() < p.len()
    &&& p.take(root_text().len() as int) == root_text()
    &&& is_separator(p[root_text().len() as int])
    &&& !has_parent_ref(p)
}

/// A client path without a parent reference resolves to a confined path:
/// the root, one separator, and what the client wrote after any leading
/// separators.
pub proof fn lemma_resolved_is_confined(sub: Seq<char>)
    requires
        !has_parent_ref(sub),
    ensures
        confined(resolved(sub)),
        resolved(sub) == root_text() + seq!['/'] + trim_leading(sub),
{
    reveal_strlit("storage");
    lemma_trim_leading(sub);
    let rest = trim_leading(sub);
    let p = resolved(sub);
    let cut = sub.len() - rest.len();
    assert(p =~= root_text() + seq!['/'] + rest);
    assert(p.take(7) =~= root_text());
    assert forall|i: int| !parent_ref_at(p, i) by {
        if parent_ref_at(p, i) {
            if i >= 8 {
                assert(p[i] == sub[i - 8 + cut]);
                assert(p[i + 1] == sub[i - 8 + cut + 1]);
                assert(parent_ref_at(sub, i - 8 + cut));
            }
        }
    }
}

/// A confined path names something: the root is a component, so a last
/// component other than a single dot exists.
pub proof fn lemma_confined_has_name(p: Seq<char>)
    requires
        confined(p),
    ensures
        has_name(p),
{
    reveal_strlit("storage");
    assert forall|k: int| 0 <= k < 7 implies !is_separator(#[trigger] p[k]) by {
        assert(p[k] == p.take(7)[k]);
    }
    assert(name_at(p, 0, 7));
}

/// `a` and `b` agree on their first `n` characters, and both have as many.
pub open spec fn same_start(a: Seq<char>, b: Seq<char>, n: int) -> bool {
    0 <= n <= a.len() && n <= b.len() && a.take(n) == b.take(n)
}

/// Tells whether `a` and `b` agree on their first `n` characters.
pub fn starts_alike(a: &str, b: &str, n: usize) -> (alike: bool)
    ensures
        alike == same_start(a@, b@, n as int),
{
    let mut left = a.chars();
    let mut right = b.chars();
    let mut at: usize = 0;
    proof {
        assert(a@.take(0) =~= b@.take(0));
    }
    while at < n
        invariant
            at <= n,
            left.remaining() == a@.skip(at as int),
            right.remaining() == b@.skip(at as int),
            same_start(a@, b@, at as int),
        decreases n - at,
    {
        let x = left.next();
        let y = right.next();
        match (x, y) {
            (Some(c), Some(d)) => {
                proof {
                    assert(a@.skip(at as int).drop_first() =~= a@.skip(at + 1));
                    assert(b@.skip(at as int).drop_first() =~= b@.skip(at + 1));
                }
                if c != d {
                    proof {
                        if same_start(a@, b@, n as int) {
                            assert(a@.take(n as int)[at as int] == b@.take(n as int)[at as int]);
                        }
                    }
                    return false;
                }
                proof {
                    assert(a@.take(at + 1) =~= a@.take(at as int).push(c));
                    assert(b@.take(at + 1) =~= b@.take(at as int).push(d));
                }
                at = at + 1;
            },
            _ => {
                return false;
            },
        }
    }
    true
}

/// A path under the storage root, as text.
#[derive(Debug)]
pub struct StoragePath {
    text: String,
}

impl View for StoragePath {
    type V = Seq<char>;

    closed spec fn view(&self) -> Seq<char> {
        self.text@
    }
}

impl StoragePath {
    #[verifier::type_invariant]
    spec fn lies_under_root(self) -> bool {
        confined(self.text@)
    }

    /// The path as text, for the file system.
    pub fn as_str(&self) -> (text: &str)
        ensures
            text@ == self@,
            confined(self@),
    {
        proof {
            use_type_invariant(self);
        }
        self.text.as_str()
    }

    /// Where in the text the final name starts and ends, in characters.
    pub fn name_span(&self) -> (span: (usize, usize))
        ensures
            final_name_at(self@, span.0 as int, span.1 as int),
            final_name_span(self@) == (span.0 as int, span.1 as int),
    {
        proof {
            use_type_invariant(self);
            lemma_confined_has_name(self.text@);
        }
        match final_component(self.text.as_str()) {
            Some((i, j)) => {
                proof {
                    lemma_final_name_unique(self.text@, i as int, j as int);
                }
                (i, j)
            },
            None => (0, 0),
        }
    }

    /// What the path names: its last component other than a single dot.
    pub fn file_name(&self) -> (name: String)
        ensures
            name@ == final_name(self@),
    {
        let (i, j) = self.name_span();
        proof {
            lemma_final_name_unique(self@, i as int, j as int);
        }
        String::from_str(self.text.as_str().substring_char(i, j))
    }
}

/// What the client asked for: an absent path is the empty one.
pub open spec fn requested(subpath: Option<String>) -> Seq<char> {
    match subpath {
        Some(s) => s@,
        None => Seq::empty(),
    }
}

/// The text of the error for a path that steps up to a parent.
pub open spec fn invalid_path_text() -> Seq<char> {
    "Invalid path"@
}

/// Maps a client path to the path under the storage root that it names.
///
/// A path with two dots in a row anywhere is refused. Any other path is
/// taken relative to the root, whether or not it starts with separators.
pub fn resolve_path(subpath: Option<String>) -> (res: Result<StoragePath, String>)
    ensures
        res is Err <==> has_parent_ref(requested(subpath)),
        res matches Err(e) ==> e@ == invalid_path_text(),
        res matches Ok(p) ==> p@ == resolved(requested(subpath)) && confined(p@),
{
    let sub = match subpath {
        Some(s) => s,
        None => String::new(),
    };
    if contains_parent_ref(sub.as_str()) {
        return Err(String::from_str("Invalid path"));
    }
    let text = join(storage_root(), trim_leading_separators(sub.as_str()));
    proof {
        lemma_resolved_is_confined(sub@);
    }
    Ok(StoragePath { text })
}

} // verus!
