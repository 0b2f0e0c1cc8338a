//! The testing frameworks recognised in a repository's dependency lists.

use vstd::prelude::*;

use crate::digits::str_eq;

verus! {

#[derive(Debug, Clone, Copy, PartialEq, Eq, Structural)]
pub enum TestingFramework {
    Jest,
    Mocha,
    Vitest,
    BunTest,
}

/// The package names that indicate the framework.
pub open spec fn spec_tf_packages(tf: TestingFramework) -> Seq<Seq<char>> {
    match tf {
        TestingFramework::Jest => seq!["jest"@],
        TestingFramework::Mocha => seq!["mocha"@],
        TestingFramework::Vitest => seq!["vitest"@],
        TestingFramework::BunTest => seq!["@types/bun"@, "bun-types"@],
    }
}

pub open spec fn spec_tf_identifier(tf: TestingFramework) -> Seq<char> {
    match tf {
        TestingFramework::Jest => "Jest"@,
        TestingFramework::Mocha => "Mocha"@,
        TestingFramework::Vitest => "Vitest"@,
        TestingFramework::BunTest => "BunTest"@,
    }
}

pub open spec fn spec_tf_matches(tf: TestingFramework, dependency: Seq<char>) -> bool {
    spec_tf_packages(tf).contains(dependency)
}

pub open spec fn spec_tf_variants() -> Seq<TestingFramework> {
    seq![
        TestingFramework::Jest,
        TestingFramework::Mocha,
        TestingFramework::Vitest,
        TestingFramework::BunTest,
    ]
}

pub open spec fn spec_tf_from_identifier(s: Seq<char>) -> Option<TestingFramework> {
    if s == "Jest"@ {
        Option::Some(TestingFramework::Jest)
    } else if s == "Mocha"@ {
        Option::Some(TestingFramework::Mocha)
    } else if s == "Vitest"@ {
        Option::Some(TestingFramework::Vitest)
    } else if s == "BunTest"@ {
        Option::Some(TestingFramework::BunTest)
    } else {
        Option::None
    }
}

impl TestingFramework {
    pub fn get_package_name(&self) -> (r: Vec<&'static str>)
        ensures
            r@.map_values(|s: &str| s@) == spec_tf_packages(*self),
    {
        let mut r: Vec<&'static str> = Vec::new();
        match self {
            TestingFramework::Jest => r.push("jest"),
            TestingFramework::Mocha => r.push("mocha"),
            TestingFramework::Vitest => r.push("vitest"),
            TestingFramework::BunTest => {
                r.push("@types/bun");
                r.push("bun-types");
            },
        }
        proof {
            assert(r@.map_values(|s: &str| s@) =~= spec_tf_packages(*self));
        }
        r
    }

    pub fn get_identifier(&self) -> (r: &'static str)
        ensures
            r@ == spec_tf_identifier(*self),
    {
        match self {
            TestingFramework::Jest => "Jest",
            TestingFramework::Mocha => "Mocha",
            TestingFramework::Vitest => "Vitest",
            TestingFramework::BunTest => "BunTest",
        }
    }

    pub fn from_identifier(identifier: &str) -> (r: Option<TestingFramework>)
        ensures
            r == spec_tf_from_identifier(identifier@),
    {
        if str_eq(identifier, "Jest") {
            Some(TestingFramework::Jest)
        } else if str_eq(identifier, "Mocha") {
            Some(TestingFramework::Mocha)
        } else if str_eq(identifier, "Vitest") {
            Some(TestingFramework::Vitest)
        } else if str_eq(identifier, "BunTest") {
            Some(TestingFramework::BunTest)
        } else {
            None
        }
    }

    pub fn matches_dependency(&self, dependency: &str) -> (r: bool)
        ensures
            r == spec_tf_matches(*self, dependency@),
    {
        let names = self.get_package_name();
        let mut i: usize = 0;
        while i < names.len()
            invariant
                i <= names@.len(),
                names@.map_values(|s: &str| s@) == spec_tf_packages(*self),
                forall|j: int| 0 <= j < i ==> spec_tf_packages(*self)[j] != dependency@,
            decreases names@.len() - i,
        {
            proof {
                assert(spec_tf_packages(*self)[i as int] == names@.map_values(
                    |s: &str| s@,
                )[i as int]);
            }
            if str_eq(names[i], dependency) {
                proof {
                    assert(spec_tf_packages(*self).contains(dependency@));
                }
                return true;
            }
            i = i + 1;
        }
        false
    }

    pub fn iter_variants() -> (r: Vec<TestingFramework>)
        ensures
            r@ == spec_tf_variants(),
    {
        let mut r: Vec<TestingFramework> = Vec::new();
        r.push(TestingFramework::Jest);
        r.push(TestingFramework::Mocha);
        r.push(TestingFramework::Vitest);
        r.push(TestingFramework::BunTest);
        proof {
            assert(r@ =~= spec_tf_variants());
        }
        r
    }

    /// The frameworks whose package occurs among the dependencies, each
    /// reported once, ordered by the first dependency that names one.
    pub fn find_testing_frameworks(dependencies: &Vec<String>) -> (r: Vec<TestingFramework>)
        ensures
            r@ == spec_find_testing_frameworks(dependencies@.map_values(|s: String| s@)),
            forall|tf: TestingFramework|
                r@.contains(tf) <==> exists|i: int|
                    0 <= i < dependencies@.len() && spec_tf_matches(
                        tf,
                        (#[trigger] dependencies@[i])@,
                    ),
            forall|i: int, j: int| 0 <= i < j < r@.len() ==> r@[i] != r@[j],
    {
        let ghost deps = dependencies@.map_values(|s: String| s@);
        let variants = TestingFramework::iter_variants();
        let mut r: Vec<TestingFramework> = Vec::new();
        let mut i: usize = 0;
        proof {
            assert(deps.subrange(0, 0) =~= Seq::<Seq<char>>::empty());
        }
        while i < dependencies.len()
            invariant
                i <= dependencies@.len(),
                deps == dependencies@.map_values(|s: String| s@),
                variants@ == spec_tf_variants(),
                r@ == spec_find_testing_frameworks(deps.subrange(0, i as int)),
                forall|tf: TestingFramework|
                    r@.contains(tf) <==> exists|j: int|
                        0 <= j < i && spec_tf_matches(tf, (#[trigger] dependencies@[j])@),
                forall|p: int, q: int| 0 <= p < q < r@.len() ==> r@[p] != r@[q],
            decreases dependencies@.len() - i,
        {
            let ghost pre_deps = deps.subrange(0, i as int);
            let ghost cur_deps = deps.subrange(0, i + 1);
            let ghost pre = r@;
            proof {
                assert(cur_deps.drop_last() =~= pre_deps);
                assert(cur_deps.last() == deps[i as int]);
                assert(deps[i as int] == dependencies@[i as int]@);
                assert(variants@.skip(0) =~= variants@);
            }
            let dep = &dependencies[i];
            let mut w: usize = 0;
            while w < variants.len()
                invariant
                    w <= variants@.len(),
                    variants@ == spec_tf_variants(),
                    i < dependencies@.len(),
                    dep@ == dependencies@[i as int]@,
                    spec_scan_testing_frameworks(r@, variants@.skip(w as int), dep@)
                        == spec_scan_testing_frameworks(pre, variants@, dep@),
                    forall|tf: TestingFramework|
                        r@.contains(tf) <==> pre.contains(tf) || (exists|u: int|
                            0 <= u < w && (#[trigger] variants@[u]) == tf && spec_tf_matches(
                                tf,
                                dep@,
                            )),
                    r@.len() >= pre.len(),
                    forall|p: int| 0 <= p < pre.len() ==> #[trigger] r@[p] == pre[p],
                    forall|p: int, q: int| 0 <= p < q < r@.len() ==> r@[p] != r@[q],
                decreases variants@.len() - w,
            {
                let tf = variants[w];
                let ghost before = r@;
                proof {
                    assert(variants@.skip(w as int)[0] == variants@[w as int]);
                    assert(variants@.skip(w as int).skip(1) =~= variants@.skip(w + 1));
                    assert forall|x: TestingFramework|
                        before.contains(x) <==> pre.contains(x) || (exists|u: int|
                            0 <= u < w && (#[trigger] variants@[u]) == x && spec_tf_matches(
                                x,
                                dep@,
                            )) by {
                        assert(before.contains(x) == r@.contains(x));
                        assert(r@.contains(x) <==> pre.contains(x) || (exists|u: int|
                            0 <= u < w && (#[trigger] variants@[u]) == x && spec_tf_matches(
                                x,
                                dep@,
                            )));
                    }
                }
                if tf.matches_dependency(dep.as_str()) {
                    if !tf_list_contains(&r, tf) {
                        r.push(tf);
                        proof {
                            assert(r@[before.len() as int] == tf);
                            assert(r@.contains(tf));
                        }
                    }
                }
                proof {
                    assert(spec_scan_testing_frameworks(before, variants@.skip(w as int), dep@)
                        == spec_scan_testing_frameworks(r@, variants@.skip(w + 1), dep@));
                    assert forall|x: TestingFramework|
                        r@.contains(x) <==> pre.contains(x) || (exists|u: int|
                            0 <= u < w + 1 && (#[trigger] variants@[u]) == x && spec_tf_matches(
                                x,
                                dep@,
                            )) by {
                        if r@.contains(x) {
                            if before.contains(x) {
                                if !pre.contains(x) {
                                    let u = choose|u: int|
                                        0 <= u < w && (#[trigger] variants@[u]) == x
                                            && spec_tf_matches(x, dep@);
                                    assert(0 <= u < w + 1 && variants@[u] == x
                                        && spec_tf_matches(x, dep@));
                                }
                            } else {
                                let p = choose|p: int| 0 <= p < r@.len() && r@[p] == x;
                                if p < before.len() {
                                    assert(before[p] == x);
                                }
                                assert(x == tf);
                                assert(variants@[w as int] == x && spec_tf_matches(x, dep@));
                            }
                        }
                        if pre.contains(x) || (exists|u: int|
                            0 <= u < w + 1 && (#[trigger] variants@[u]) == x && spec_tf_matches(
                                x,
                                dep@,
                            )) {
                            if pre.contains(x) || (exists|u: int|
                                0 <= u < w && (#[trigger] variants@[u]) == x && spec_tf_matches(
                                    x,
                                    dep@,
                                )) {
                                assert(before.contains(x));
                                let p = choose|p: int|
                                    0 <= p < before.len() && before[p] == x;
                                assert(r@[p] == x);
                                assert(r@.contains(x));
                            } else {
                                let u = choose|u: int|
                                    0 <= u < w + 1 && (#[trigger] variants@[u]) == x
                                        && spec_tf_matches(x, dep@);
                                assert(u == w);
                                assert(x == tf);
                                if before.contains(x) {
                                    let p = choose|p: int|
                                        0 <= p < before.len() && before[p] == x;
                                    assert(r@[p] == x);
                                } else {
                                    assert(r@[before.len() as int] == tf);
                                }
                                assert(r@.contains(x));
                            }
                        }
                    }
                }
                w = w + 1;
            }
            proof {
                assert(variants@.skip(variants@.len() as int) =~= Seq::<
                    TestingFramework,
                >::empty());
                assert(r@ == spec_scan_testing_frameworks(pre, spec_tf_variants(), dep@));
                assert(r@ == spec_find_testing_frameworks(cur_deps));
                assert forall|x: TestingFramework| #![trigger r@.contains(x)]
                    r@.contains(x) <==> pre.contains(x) || (exists|u: int|
                        0 <= u < variants@.len() && (#[trigger] variants@[u]) == x
                            && spec_tf_matches(x, dep@)) by {
                    assert(r@.contains(x) <==> pre.contains(x) || (exists|u: int|
                        0 <= u < variants@.len() && (#[trigger] variants@[u]) == x
                            && spec_tf_matches(x, dep@)));
                }
                assert forall|tf: TestingFramework|
                    r@.contains(tf) <==> exists|j: int|
                        0 <= j < i + 1 && spec_tf_matches(tf, (#[trigger] dependencies@[j])@) by {
                    let vidx: int = match tf {
                        TestingFramework::Jest => 0,
                        TestingFramework::Mocha => 1,
                        TestingFramework::Vitest => 2,
                        TestingFramework::BunTest => 3,
                    };
                    assert(variants@[vidx] == tf);
                    if r@.contains(tf) {
                        if pre.contains(tf) {
                            let j = choose|j: int|
                                0 <= j < i && spec_tf_matches(
                                    tf,
                                    (#[trigger] dependencies@[j])@,
                                );
                            assert(0 <= j < i + 1 && spec_tf_matches(tf, dependencies@[j]@));
                        } else {
                            let u = choose|u: int|
                                0 <= u < variants@.len() && (#[trigger] variants@[u]) == tf
                                    && spec_tf_matches(tf, dep@);
                            assert(spec_tf_matches(tf, dependencies@[i as int]@));
                        }
                    }
                    if exists|j: int|
                        0 <= j < i + 1 && spec_tf_matches(tf, (#[trigger] dependencies@[j])@) {
                        let j = choose|j: int|
                            0 <= j < i + 1 && spec_tf_matches(
                                tf,
                                (#[trigger] dependencies@[j])@,
                            );
                        if j < i {
                            assert(pre.contains(tf));
                            let p = choose|p: int| 0 <= p < pre.len() && pre[p] == tf;
                            assert(r@[p] == tf);
                            assert(r@.contains(tf));
                        } else {
                            assert(spec_tf_matches(tf, dep@));
                            assert(0 <= vidx < variants@.len() && variants@[vidx] == tf
                                && spec_tf_matches(tf, dep@));
                            assert(r@.contains(tf));
                        }
                    }
                }
            }
            i = i + 1;
        }
        proof {
            assert(deps.subrange(0, deps.len() as int) =~= deps);
        }
        r
    }
}

/// One dependency scanned against the variants in order: every variant
/// whose package the dependency names and that is not yet listed is
/// appended.
pub open spec fn spec_scan_testing_frameworks(
    acc: Seq<TestingFramework>,
    vars: Seq<TestingFramework>,
    d: Seq<char>,
) -> Seq<TestingFramework>
    decreases vars.len(),
{
    if vars.len() == 0 {
        acc
    } else {
        let acc2 = if spec_tf_matches(vars[0], d) && !acc.contains(vars[0]) {
            acc.push(vars[0])
        } else {
            acc
        };
        spec_scan_testing_frameworks(acc2, vars.skip(1), d)
    }
}

/// The frameworks named by a dependency list, each once, ordered by the
/// first dependency that names one of their packages.
pub open spec fn spec_find_testing_frameworks(deps: Seq<Seq<char>>) -> Seq<TestingFramework>
    decreases deps.len(),
{
    if deps.len() == 0 {
        Seq::empty()
    } else {
        spec_scan_testing_frameworks(
            spec_find_testing_frameworks(deps.drop_last()),
            spec_tf_variants(),
            deps.last(),
        )
    }
}

/// Whether the list holds this framework.
fn tf_list_contains(list: &Vec<TestingFramework>, tf: TestingFramework) -> (r: bool)
    ensures
        r == list@.contains(tf),
{
    let mut i: usize = 0;
    while i < list.len()
        invariant
            i <= list@.len(),
            forall|j: int| 0 <= j < i ==> list@[j] != tf,
        decreases list@.len() - i,
    {
        if list[i] == tf {
            return true;
        }
        i = i + 1;
    }
    false
}

} // verus!
