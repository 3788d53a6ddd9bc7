//! Binary discovery: the fixed search order over candidate locations, the
//! first-existing-wins rule, and a step-wise resolver so the filesystem is
//! probed lazily, one candidate at a time, with no probe after a hit.

use vstd::prelude::*;

verus! {

/// `a` and `b` joined with a path separator.
pub open spec fn join_path_spec(a: Seq<char>, b: Seq<char>) -> Seq<char> {
    a + seq!['/'] + b
}

/// The index of the last path separator of `s`, or `-1` when it has none.
pub open spec fn last_slash(s: Seq<char>) -> int
    decreases s.len(),
{
    if s.len() == 0 {
        -1
    } else if s.last() == '/' {
        s.len() - 1
    } else {
        last_slash(s.drop_last())
    }
}

/// The directory one level above `s`: the prefix before the last
/// separator, the root for a top-level entry, nothing for a bare name or
/// the root itself.
pub open spec fn parent_of(s: Seq<char>) -> Option<Seq<char>> {
    let k = last_slash(s);
    if k < 0 {
        None
    } else if k == 0 {
        if s.len() > 1 {
            Some(seq!['/'])
        } else {
            None
        }
    } else {
        Some(s.take(k))
    }
}

/// The models of a vector of paths.
pub open spec fn paths_view(ps: Seq<String>) -> Seq<Seq<char>> {
    ps.map_values(|p: String| p@)
}

/// Join two path components.
pub fn join_path(a: &str, b: &str) -> (r: String)
    ensures
        r@ == join_path_spec(a@, b@),
{
    proof {
        reveal_strlit("/");
    }
    let mut s = a.to_owned();
    s.append("/");
    s.append(b);
    proof {
        assert(s@ =~= join_path_spec(a@, b@));
    }
    s
}

proof fn lemma_last_slash_at(s: Seq<char>, k: int)
    requires
        -1 <= k < s.len(),
        k >= 0 ==> s[k] == '/',
        forall|j: int| k < j < s.len() ==> s[j] != '/',
    ensures
        last_slash(s) == k,
    decreases s.len(),
{
    if s.len() > 0 && s.last() != '/' {
        lemma_last_slash_at(s.drop_last(), k);
    }
}

/// The directory one level above `s`, under the model of [`parent_of`].
pub fn parent_dir(s: &str) -> (r: Option<String>)
    ensures
        (r matches Some(p) ==> parent_of(s@) == Some(p@)) && (r is None ==> parent_of(s@)
            is None),
{
    let n = s.unicode_len();
    let mut i: usize = n;
    while i > 0 && !slash_char(s.get_char(i - 1))
        invariant
            n == s@.len(),
            i <= n,
            forall|j: int| i <= j < n ==> s@[j] != '/',
        decreases i,
    {
        i -= 1;
    }
    if i == 0 {
        proof {
            lemma_last_slash_at(s@, -1);
        }
        return None;
    }
    let k = i - 1;
    proof {
        lemma_last_slash_at(s@, k as int);
    }
    if k == 0 {
        if n > 1 {
            proof {
                reveal_strlit("/");
            }
            Some("/".to_owned())
        } else {
            None
        }
    } else {
        Some(s.substring_char(0, k).to_owned())
    }
}

fn slash_char(c: char) -> (r: bool)
    ensures
        r == (c == '/'),
{
    c == '/'
}

/// The name the supervised binary is searched for on disk.
pub open spec fn binary_file_name() -> Seq<char> {
    "lapsus_rust"@
}

/// The fixed search order, first candidate tried first:
/// a custom configured path, the controller's own directory, a packaged
/// resources directory one level up, the development tree two levels up, a
/// further ancestor three levels up, a fixed well-known development path, a
/// user-local binary directory, and the system-wide binary directory.
pub open spec fn candidates_of(
    custom: Option<Seq<char>>,
    home: Option<Seq<char>>,
    app_dir: Seq<char>,
) -> Seq<Seq<char>> {
    let own = match custom {
        Some(p) => seq![p],
        None => Seq::empty(),
    };
    let bundled = seq![join_path_spec(app_dir, "lapsus_rust"@)];
    let resources = match parent_of(app_dir) {
        Some(p) => seq![join_path_spec(p, "Resources/lapsus_rust"@)],
        None => Seq::empty(),
    };
    let dev = match parent_of(app_dir) {
        Some(p) => match parent_of(p) {
            Some(gp) => seq![join_path_spec(gp, "lapsus_rust"@)],
            None => Seq::empty(),
        },
        None => Seq::empty(),
    };
    let ancestor = match parent_of(app_dir) {
        Some(p) => match parent_of(p) {
            Some(gp) => match parent_of(gp) {
                Some(ggp) => seq![join_path_spec(ggp, "lapsus_rust"@)],
                None => Seq::empty(),
            },
            None => Seq::empty(),
        },
        None => Seq::empty(),
    };
    let fixed = seq!["/Users/ryder/bin/lapsus/lapsus_rust"@];
    let user_bin = match home {
        Some(h) => seq![join_path_spec(h, "bin/lapsus/lapsus_rust"@)],
        None => Seq::empty(),
    };
    let system_bin = seq!["/usr/local/bin/lapsus_rust"@];
    own + bundled + resources + dev + ancestor + fixed + user_bin + system_bin
}

/// Build the candidate list of the fixed search order.
pub fn candidate_paths(custom: &Option<String>, home: &Option<String>, app_dir: &str) -> (r: Vec<
    String,
>)
    ensures
        paths_view(r@) == candidates_of(
            match custom {
                Some(p) => Some(p@),
                None => None,
            },
            match home {
                Some(h) => Some(h@),
                None => None,
            },
            app_dir@,
        ),
{
    let mut r: Vec<String> = Vec::new();
    if let Some(p) = custom {
        r.push(p.clone());
    }
    r.push(join_path(app_dir, "lapsus_rust"));
    let parent = parent_dir(app_dir);
    if let Some(p) = &parent {
        r.push(join_path(p.as_str(), "Resources/lapsus_rust"));
        let grandparent = parent_dir(p.as_str());
        if let Some(gp) = &grandparent {
            r.push(join_path(gp.as_str(), "lapsus_rust"));
            let great = parent_dir(gp.as_str());
            if let Some(ggp) = &great {
                r.push(join_path(ggp.as_str(), "lapsus_rust"));
            }
        }
    }
    r.push("/Users/ryder/bin/lapsus/lapsus_rust".to_owned());
    if let Some(h) = home {
        r.push(join_path(h.as_str(), "bin/lapsus/lapsus_rust"));
    }
    r.push("/usr/local/bin/lapsus_rust".to_owned());
    proof {
        assert(paths_view(r@) =~= candidates_of(
            match custom {
                Some(p) => Some(p@),
                None => None,
            },
            match home {
                Some(h) => Some(h@),
                None => None,
            },
            app_dir@,
        ));
    }
    r
}

/// The binary was found nowhere; carries every location that was tried.
#[derive(Debug)]
pub struct NotFoundError {
    pub tried: Vec<String>,
}

/// The least index whose candidate exists, searched from position `i`.
pub open spec fn first_hit_from(ex: Seq<bool>, i: int) -> Option<int>
    decreases ex.len() - i when 0 <= i <= ex.len()
{
    if i >= ex.len() {
        None
    } else if ex[i] {
        Some(i)
    } else {
        first_hit_from(ex, i + 1)
    }
}

/// The least index whose candidate exists.
pub open spec fn first_hit(ex: Seq<bool>) -> Option<int> {
    first_hit_from(ex, 0)
}

proof fn lemma_first_hit_from_least(ex: Seq<bool>, k: int)
    requires
        0 <= k <= ex.len(),
    ensures
        match first_hit_from(ex, k) {
            Some(i) => k <= i < ex.len() && ex[i] && (forall|j: int| k <= j < i ==> !ex[j]),
            None => forall|j: int| k <= j < ex.len() ==> !ex[j],
        },
    decreases ex.len() - k,
{
    if k < ex.len() && !ex[k] {
        lemma_first_hit_from_least(ex, k + 1);
    }
}

/// First existing path wins, deterministically: the search resolves to the
/// least position whose candidate exists, whatever holds elsewhere, and
/// fails exactly when no candidate exists.
pub proof fn lemma_first_hit_least(ex: Seq<bool>)
    ensures
        match first_hit(ex) {
            Some(i) => 0 <= i < ex.len() && ex[i] && (forall|j: int| 0 <= j < i ==> !ex[j]),
            None => forall|j: int| 0 <= j < ex.len() ==> !ex[j],
        },
{
    lemma_first_hit_from_least(ex, 0);
}

/// First existing path wins: given the candidates and, for each, whether
/// it exists, return the candidate at the least existing position, or the
/// whole tried list when none exists.
pub fn resolve(candidates: &Vec<String>, exists: &Vec<bool>) -> (r: Result<String, NotFoundError>)
    requires
        candidates@.len() == exists@.len(),
    ensures
        match first_hit(exists@) {
            Some(i) => r matches Ok(p) && p@ == paths_view(candidates@)[i],
            None => r matches Err(e) && paths_view(e.tried@) == paths_view(candidates@),
        },
{
    let mut i: usize = 0;
    while i < candidates.len()
        invariant
            candidates@.len() == exists@.len(),
            i <= candidates@.len(),
            first_hit(exists@) == first_hit_from(exists@, i as int),
        decreases candidates@.len() - i,
    {
        if exists[i] {
            return Ok(candidates[i].clone());
        }
        i += 1;
    }
    let mut tried: Vec<String> = Vec::new();
    let mut j: usize = 0;
    while j < candidates.len()
        invariant
            j <= candidates@.len(),
            tried@.len() == j,
            forall|t: int| 0 <= t < j ==> tried@[t]@ == candidates@[t]@,
        decreases candidates@.len() - j,
    {
        tried.push(candidates[j].clone());
        j += 1;
    }
    proof {
        assert(paths_view(tried@) =~= paths_view(candidates@));
    }
    Err(NotFoundError { tried })
}

/// A lazy resolver: candidates are probed in order, one per call, and no
/// candidate after a hit is ever probed.
pub struct Resolver {
    candidates: Vec<String>,
    next: usize,
}

impl Resolver {
    /// The candidate list, in search order.
    pub closed spec fn candidates_spec(&self) -> Seq<Seq<char>> {
        paths_view(self.candidates@)
    }

    /// The position of the next candidate to probe.
    pub closed spec fn next_spec(&self) -> int {
        self.next as int
    }

    /// The resolver's internal consistency.
    pub closed spec fn wf(&self) -> bool {
        self.next <= self.candidates@.len()
    }

    /// Start a search over the given candidates.
    pub fn new(candidates: Vec<String>) -> (r: Self)
        ensures
            r.wf(),
            r.candidates_spec() == paths_view(candidates@),
            r.next_spec() == 0,
    {
        Resolver { candidates, next: 0 }
    }

    /// The next location to probe, or nothing when the order is exhausted.
    pub fn pending(&self) -> (r: Option<&String>)
        requires
            self.wf(),
        ensures
            self.next_spec() < self.candidates_spec().len() ==> (r matches Some(p) && p@
                == self.candidates_spec()[self.next_spec()]),
            self.next_spec() >= self.candidates_spec().len() ==> r is None,
    {
        if self.next < self.candidates.len() {
            Some(&self.candidates[self.next])
        } else {
            None
        }
    }

    /// Record whether the pending candidate exists: a hit resolves to that
    /// path at once; a miss moves on, and exhausting the order yields the
    /// not-found error with the whole tried list.
    pub fn advance(&mut self, exists: bool) -> (r: Option<Result<String, NotFoundError>>)
        requires
            old(self).wf(),
            old(self).next_spec() < old(self).candidates_spec().len(),
        ensures
            final(self).wf(),
            final(self).candidates_spec() == old(self).candidates_spec(),
            exists ==> (r matches Some(Ok(p)) && p@ == old(self).candidates_spec()[old(
                self,
            ).next_spec()]),
            !exists && old(self).next_spec() + 1 < old(self).candidates_spec().len() ==> (r
                is None && final(self).next_spec() == old(self).next_spec() + 1),
            !exists && old(self).next_spec() + 1 == old(self).candidates_spec().len() ==> (
            r matches Some(Err(e)) && paths_view(e.tried@) == old(self).candidates_spec()),
    {
        let n = self.candidates.len();
        proof {
            assert(old(self).candidates_spec().len() == n);
        }
        if exists {
            return Some(Ok(self.candidates[self.next].clone()));
        }
        self.next += 1;
        if self.next < self.candidates.len() {
            return None;
        }
        let mut tried: Vec<String> = Vec::new();
        let mut j: usize = 0;
        while j < self.candidates.len()
            invariant
                j <= self.candidates@.len(),
                tried@.len() == j,
                forall|t: int| 0 <= t < j ==> tried@[t]@ == self.candidates@[t]@,
        decreases self.candidates@.len() - j,
        {
            tried.push(self.candidates[j].clone());
            j += 1;
        }
        proof {
            assert(paths_view(tried@) =~= paths_view(self.candidates@));
        }
        Some(Err(NotFoundError { tried }))
    }
}

} // verus!
