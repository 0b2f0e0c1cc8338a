//! The bundler tools recognised in a repository's dependency lists.

use vstd::prelude::*;

use crate::digits::str_eq;

verus! {

#[derive(Debug, Clone, Copy, PartialEq, Eq, Structural)]
pub enum Bundler {
    Esbuild,
    Rollup,
    Webpack,
    Vite,
    Turbo,
}

impl Bundler {
    /// The package names that indicate the bundler.
    pub fn get_package_name(&self) -> (r: Vec<&'static str>)
        ensures
            r@.len() == 1,
            r@[0]@ == spec_bundler_package(*self),
    {
        let mut r: Vec<&'static str> = Vec::new();
        match self {
            Bundler::Esbuild => r.push("esbuild"),
            Bundler::Rollup => r.push("rollup"),
            Bundler::Webpack => r.push("webpack"),
            Bundler::Vite => r.push("vite"),
            Bundler::Turbo => r.push("turbo"),
        }
        r
    }

    pub fn get_identifier(&self) -> (r: &'static str)
        ensures
            r@ == spec_bundler_identifier(*self),
    {
        match self {
            Bundler::Esbuild => "esbuild",
            Bundler::Rollup => "Rollup",
            Bundler::Webpack => "Webpack",
            Bundler::Vite => "Vite",
            Bundler::Turbo => "Turbo",
        }
    }

    /// Reads an identifier back, ignoring ASCII case.
    pub fn from_identifier(identifier: &str) -> (r: Option<Bundler>)
        ensures
            r == spec_bundler_from_identifier(identifier@),
    {
        let lower = ascii_lowercase(identifier);
        if str_eq(lower.as_str(), "esbuild") {
            Some(Bundler::Esbuild)
        } else if str_eq(lower.as_str(), "rollup") {
            Some(Bundler::Rollup)
        } else if str_eq(lower.as_str(), "webpack") {
            Some(Bundler::Webpack)
        } else if str_eq(lower.as_str(), "vite") {
            Some(Bundler::Vite)
        } else if str_eq(lower.as_str(), "turbo") {
            Some(Bundler::Turbo)
        } else {
            None
        }
    }

    pub fn matches_dependency(&self, dependency: &str) -> (r: bool)
        ensures
            r == (dependency@ == spec_bundler_package(*self)),
    {
        let names = self.get_package_name();
        str_eq(names[0], dependency)
    }

    /// Every variant, in a fixed order.
    pub fn iter_variants() -> (r: Vec<Bundler>)
        ensures
            r@ == spec_bundler_variants(),
    {
        let mut r: Vec<Bundler> = Vec::new();
        r.push(Bundler::Esbuild);
        r.push(Bundler::Rollup);
        r.push(Bundler::Webpack);
        r.push(Bundler::Vite);
        r.push(Bundler::Turbo);
        proof {
            assert(r@ =~= spec_bundler_variants());
        }
        r
    }

    /// The bundlers whose package name occurs among the dependencies, each
    /// reported once, ordered by the first dependency that names it.
    pub fn find_bundlers(dependencies: &Vec<String>) -> (r: Vec<Bundler>)
        ensures
            r@ == spec_find_bundlers(dependencies@.map_values(|s: String| s@)),
            forall|b: Bundler|
                r@.contains(b) <==> exists|i: int|
                    0 <= i < dependencies@.len() && (#[trigger] dependencies@[i])@
                        == spec_bundler_package(b),
            forall|i: int, j: int| 0 <= i < j < r@.len() ==> r@[i] != r@[j],
    {
        let ghost deps = dependencies@.map_values(|s: String| s@);
        let variants = Bundler::iter_variants();
        let mut r: Vec<Bundler> = Vec::new();
        let mut i: usize = 0;
        proof {
            assert(deps.subrange(0, 0) =~= Seq::<Seq<char>>::empty());
        }
        while i < dependencies.len()
            invariant
                i <= dependencies@.len(),
                deps == dependencies@.map_values(|s: String| s@),
                variants@ == spec_bundler_variants(),
                r@ == spec_find_bundlers(deps.subrange(0, i as int)),
                forall|b: Bundler|
                    r@.contains(b) <==> exists|j: int|
                        0 <= j < i && (#[trigger] dependencies@[j])@ == spec_bundler_package(b),
                forall|p: int, q: int| 0 <= p < q < r@.len() ==> r@[p] != r@[q],
            decreases dependencies@.len() - i,
        {
            let ghost pre_deps = deps.subrange(0, i as int);
            let ghost cur_deps = deps.subrange(0, i + 1);
            let ghost pre = r@;
            proof {
                assert(cur_deps.drop_last() =~= pre_deps);
                assert(cur_deps.last() == deps[i as int]);
                assert(deps[i as int] == dependencies@[i as int]@);
                assert(variants@.skip(0) =~= variants@);
            }
            let dep = &dependencies[i];
            let mut w: usize = 0;
            while w < variants.len()
                invariant
                    w <= variants@.len(),
                    variants@ == spec_bundler_variants(),
                    i < dependencies@.len(),
                    dep@ == dependencies@[i as int]@,
                    spec_scan_bundlers(r@, variants@.skip(w as int), dep@) == spec_scan_bundlers(
                        pre,
                        variants@,
                        dep@,
                    ),
                    forall|b: Bundler|
                        r@.contains(b) <==> pre.contains(b) || (exists|u: int|
                            0 <= u < w && (#[trigger] variants@[u]) == b && dep@
                                == spec_bundler_package(b)),
                    r@.len() >= pre.len(),
                    forall|p: int| 0 <= p < pre.len() ==> #[trigger] r@[p] == pre[p],
                    forall|p: int, q: int| 0 <= p < q < r@.len() ==> r@[p] != r@[q],
                decreases variants@.len() - w,
            {
                let b = variants[w];
                let ghost before = r@;
                proof {
                    assert(variants@.skip(w as int)[0] == variants@[w as int]);
                    assert(variants@.skip(w as int).skip(1) =~= variants@.skip(w + 1));
                    assert forall|x: Bundler|
                        before.contains(x) <==> pre.contains(x) || (exists|u: int|
                            0 <= u < w && (#[trigger] variants@[u]) == x && dep@
                                == spec_bundler_package(x)) by {
                        assert(before.contains(x) == r@.contains(x));
                    }
                }
                if b.matches_dependency(dep.as_str()) {
                    if !bundler_list_contains(&r, b) {
                        r.push(b);
                        proof {
                            assert(r@[before.len() as int] == b);
                            assert(r@.contains(b));
                            assert forall|x: Bundler| #[trigger] r@.contains(x) implies
                                before.contains(x) || x == b by {
                                let p = choose|p: int| 0 <= p < r@.len() && r@[p] == x;
                                if p < before.len() {
                                    assert(before[p] == x);
                                }
                            }
                            assert forall|x: Bundler| before.contains(x) implies r@.contains(
                                x,
                            ) by {
                                let p = choose|p: int| 0 <= p < before.len() && before[p] == x;
                                assert(r@[p] == x);
                            }
                        }
                    }
                }
                proof {
                    assert(spec_scan_bundlers(before, variants@.skip(w as int), dep@)
                        == spec_scan_bundlers(r@, variants@.skip(w + 1), dep@));
                    assert forall|x: Bundler|
                        r@.contains(x) <==> pre.contains(x) || (exists|u: int|
                            0 <= u < w + 1 && (#[trigger] variants@[u]) == x && dep@
                                == spec_bundler_package(x)) by {
                        if r@.contains(x) {
                            if before.contains(x) {
                                if !pre.contains(x) {
                                    let u = choose|u: int|
                                        0 <= u < w && (#[trigger] variants@[u]) == x && dep@
                                            == spec_bundler_package(x);
                                    assert(0 <= u < w + 1 && variants@[u] == x && dep@
                                        == spec_bundler_package(x));
                                }
                            } else {
                                let p = choose|p: int| 0 <= p < r@.len() && r@[p] == x;
                                if p < before.len() {
                                    assert(before[p] == x);
                                }
                                assert(x == b);
                                assert(variants@[w as int] == x && dep@ == spec_bundler_package(
                                    x,
                                ));
                            }
                        }
                        if pre.contains(x) || (exists|u: int|
                            0 <= u < w + 1 && (#[trigger] variants@[u]) == x && dep@
                                == spec_bundler_package(x)) {
                            if pre.contains(x) || (exists|u: int|
                                0 <= u < w && (#[trigger] variants@[u]) == x && dep@
                                    == spec_bundler_package(x)) {
                                assert(before.contains(x));
                                let p = choose|p: int|
                                    0 <= p < before.len() && before[p] == x;
                                assert(r@[p] == x);
                                assert(r@.contains(x));
                            } else {
                                let u = choose|u: int|
                                    0 <= u < w + 1 && (#[trigger] variants@[u]) == x && dep@
                                        == spec_bundler_package(x);
                                assert(u == w);
                                assert(x == b);
                                if before.contains(x) {
                                    let p = choose|p: int|
                                        0 <= p < before.len() && before[p] == x;
                                    assert(r@[p] == x);
                                } else {
                                    assert(r@[before.len() as int] == b);
                                }
                                assert(r@.contains(x));
                            }
                        }
                    }
                }
                w = w + 1;
            }
            proof {
                assert(variants@.skip(variants@.len() as int) =~= Seq::<Bundler>::empty());
                assert(r@ == spec_scan_bundlers(pre, spec_bundler_variants(), dep@));
                assert(r@ == spec_find_bundlers(cur_deps));
                assert forall|x: Bundler| #![trigger r@.contains(x)]
                    r@.contains(x) <==> pre.contains(x) || (exists|u: int|
                        0 <= u < variants@.len() && (#[trigger] variants@[u]) == x && dep@
                            == spec_bundler_package(x)) by {
                    assert(r@.contains(x) <==> pre.contains(x) || (exists|u: int|
                        0 <= u < variants@.len() && (#[trigger] variants@[u]) == x && dep@
                            == spec_bundler_package(x)));
                }
                assert forall|b: Bundler|
                    r@.contains(b) <==> exists|j: int|
                        0 <= j < i + 1 && (#[trigger] dependencies@[j])@ == spec_bundler_package(
                            b,
                        ) by {
                    let vidx: int = match b {
                        Bundler::Esbuild => 0,
                        Bundler::Rollup => 1,
                        Bundler::Webpack => 2,
                        Bundler::Vite => 3,
                        Bundler::Turbo => 4,
                    };
                    assert(variants@[vidx] == b);
                    if r@.contains(b) {
                        if pre.contains(b) {
                            let j = choose|j: int|
                                0 <= j < i && (#[trigger] dependencies@[j])@
                                    == spec_bundler_package(b);
                            assert(0 <= j < i + 1 && dependencies@[j]@ == spec_bundler_package(
                                b,
                            ));
                        } else {
                            let u = choose|u: int|
                                0 <= u < variants@.len() && (#[trigger] variants@[u]) == b
                                    && dep@ == spec_bundler_package(b);
                            assert(dependencies@[i as int]@ == spec_bundler_package(b));
                        }
                    }
                    if exists|j: int|
                        0 <= j < i + 1 && (#[trigger] dependencies@[j])@ == spec_bundler_package(
                            b,
                        ) {
                        let j = choose|j: int|
                            0 <= j < i + 1 && (#[trigger] dependencies@[j])@
                                == spec_bundler_package(b);
                        if j < i {
                            assert(pre.contains(b));
                            let p = choose|p: int| 0 <= p < pre.len() && pre[p] == b;
                            assert(r@[p] == b);
                            assert(r@.contains(b));
                        } else {
                            assert(dep@ == spec_bundler_package(b));
                            assert(0 <= vidx < variants@.len() && variants@[vidx] == b && dep@
                                == spec_bundler_package(b));
                            assert(r@.contains(b));
                        }
                    }
                }
            }
            i = i + 1;
        }
        proof {
            assert(deps.subrange(0, deps.len() as int) =~= deps);
        }
        r
    }
}

/// The variants in their fixed scan order.
pub open spec fn spec_bundler_variants() -> Seq<Bundler> {
    seq![Bundler::Esbuild, Bundler::Rollup, Bundler::Webpack, Bundler::Vite, Bundler::Turbo]
}

/// One dependency scanned against the variants in order: every variant
/// whose package the dependency names and that is not yet listed is
/// appended.
pub open spec fn spec_scan_bundlers(acc: Seq<Bundler>, vars: Seq<Bundler>, d: Seq<char>) -> Seq<
    Bundler,
>
    decreases vars.len(),
{
    if vars.len() == 0 {
        acc
    } else {
        let acc2 = if d == spec_bundler_package(vars[0]) && !acc.contains(vars[0]) {
            acc.push(vars[0])
        } else {
            acc
        };
        spec_scan_bundlers(acc2, vars.skip(1), d)
    }
}

/// The bundlers named by a dependency list, each once, ordered by the first
/// dependency that names it.
pub open spec fn spec_find_bundlers(deps: Seq<Seq<char>>) -> Seq<Bundler>
    decreases deps.len(),
{
    if deps.len() == 0 {
        Seq::empty()
    } else {
        spec_scan_bundlers(
            spec_find_bundlers(deps.drop_last()),
            spec_bundler_variants(),
            deps.last(),
        )
    }
}

pub open spec fn spec_bundler_package(b: Bundler) -> Seq<char> {
    match b {
        Bundler::Esbuild => "esbuild"@,
        Bundler::Rollup => "rollup"@,
        Bundler::Webpack => "webpack"@,
        Bundler::Vite => "vite"@,
        Bundler::Turbo => "turbo"@,
    }
}

pub open spec fn spec_bundler_identifier(b: Bundler) -> Seq<char> {
    match b {
        Bundler::Esbuild => "esbuild"@,
        Bundler::Rollup => "Rollup"@,
        Bundler::Webpack => "Webpack"@,
        Bundler::Vite => "Vite"@,
        Bundler::Turbo => "Turbo"@,
    }
}

/// Which bundler an identifier names, ignoring ASCII case.
pub open spec fn spec_bundler_from_identifier(s: Seq<char>) -> Option<Bundler> {
    let lower = s.map_values(|c: char| spec_ascii_lower(c));
    if lower == "esbuild"@ {
        Option::Some(Bundler::Esbuild)
    } else if lower == "rollup"@ {
        Option::Some(Bundler::Rollup)
    } else if lower == "webpack"@ {
        Option::Some(Bundler::Webpack)
    } else if lower == "vite"@ {
        Option::Some(Bundler::Vite)
    } else if lower == "turbo"@ {
        Option::Some(Bundler::Turbo)
    } else {
        Option::None
    }
}

/// ASCII lowercase of one character; other characters are unchanged.
pub open spec fn spec_ascii_lower(c: char) -> char {
    if 'A' <= c && c <= 'Z' {
        ((c as u8) + 32) as char
    } else {
        c
    }
}

/// Lowercases the ASCII letters of a string.
pub fn ascii_lowercase(s: &str) -> (r: String)
    ensures
        r@ == s@.map_values(|c: char| spec_ascii_lower(c)),
{
    let len = s.unicode_len();
    let mut r = String::new();
    let mut i: usize = 0;
    while i < len
        invariant
            i <= len,
            len == s@.len(),
            r@ =~= s@.subrange(0, i as int).map_values(|c: char| spec_ascii_lower(c)),
        decreases len - i,
    {
        let c = s.get_char(i);
        let lc = if 'A' <= c && c <= 'Z' {
            ((c as u8) + 32) as char
        } else {
            c
        };
        crate::digits::push_char(&mut r, lc);
        proof {
            assert(r@ =~= s@.subrange(0, i + 1).map_values(|c: char| spec_ascii_lower(c)));
        }
        i = i + 1;
    }
    proof {
        assert(s@.subrange(0, len as int) =~= s@);
    }
    r
}

/// Whether the list holds this bundler.
fn bundler_list_contains(list: &Vec<Bundler>, b: Bundler) -> (r: bool)
    ensures
        r == list@.contains(b),
{
    let mut i: usize = 0;
    while i < list.len()
        invariant
            i <= list@.len(),
            forall|j: int| 0 <= j < i ==> list@[j] != b,
        decreases list@.len() - i,
    {
        if list[i] == b {
            return true;
        }
        i = i + 1;
    }
    false
}

} // verus!
