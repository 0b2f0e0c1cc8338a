//! The package managers recognised by the lock files a repository carries.

use vstd::prelude::*;

use crate::digits::str_eq;

verus! {

#[derive(Debug, Clone, Copy, PartialEq, Eq, Structural)]
pub enum PackageManager {
    Npm,
    Yarn,
    Pnpm,
    Bun,
    Deno,
}

/// The lock file names that indicate the package manager.
pub open spec fn spec_lock_file_names(pm: PackageManager) -> Seq<Seq<char>> {
    match pm {
        PackageManager::Npm => seq!["package-lock.json"@],
        PackageManager::Yarn => seq!["yarn.lock"@],
        PackageManager::Pnpm => seq!["pnpm-lock.yaml"@],
        PackageManager::Bun => seq!["bun.lockb"@, "bun.lock"@],
        PackageManager::Deno => seq!["lock.json"@],
    }
}

pub open spec fn spec_pm_identifier(pm: PackageManager) -> Seq<char> {
    match pm {
        PackageManager::Npm => "npm"@,
        PackageManager::Yarn => "yarn"@,
        PackageManager::Pnpm => "pnpm"@,
        PackageManager::Bun => "bun"@,
        PackageManager::Deno => "deno"@,
    }
}

/// Whether the path names the lock file: a bare path must equal the name, a
/// path with directories must end in a slash and the name.
pub open spec fn spec_matches_name(file: Seq<char>, name: Seq<char>) -> bool {
    if file.contains('/') {
        file.len() > name.len() && file.subrange(file.len() - name.len() - 1, file.len() as int)
            == seq!['/'] + name
    } else {
        file == name
    }
}

pub open spec fn spec_matches_lock_file(pm: PackageManager, file: Seq<char>) -> bool {
    exists|i: int|
        0 <= i < spec_lock_file_names(pm).len() && spec_matches_name(
            file,
            #[trigger] spec_lock_file_names(pm)[i],
        )
}

/// Whether the string ends with `/` followed by the name.
fn ends_with_slash_name(file: &str, name: &str) -> (r: bool)
    ensures
        r == (file@.len() > name@.len() && file@.subrange(
            file@.len() - name@.len() - 1,
            file@.len() as int,
        ) == seq!['/'] + name@),
{
    let flen = file.unicode_len();
    let nlen = name.unicode_len();
    if flen <= nlen {
        return false;
    }
    let start = flen - nlen - 1;
    if file.get_char(start) != '/' {
        proof {
            assert(file@.subrange(file@.len() - name@.len() - 1, file@.len() as int)[0]
                == file@[start as int]);
            assert((seq!['/'] + name@)[0] == '/');
        }
        return false;
    }
    let mut i: usize = 0;
    while i < nlen
        invariant
            i <= nlen,
            flen == file@.len(),
            nlen == name@.len(),
            flen > nlen,
            start == flen - nlen - 1,
            file@[start as int] == '/',
            forall|j: int| 0 <= j < i ==> file@[start + 1 + j] == name@[j],
        decreases nlen - i,
    {
        if file.get_char(start + 1 + i) != name.get_char(i) {
            proof {
                let tail = file@.subrange(file@.len() - name@.len() - 1, file@.len() as int);
                assert(tail[1 + i] == file@[start + 1 + i]);
                assert((seq!['/'] + name@)[1 + i] == name@[i as int]);
            }
            return false;
        }
        i = i + 1;
    }
    proof {
        assert(file@.subrange(file@.len() - name@.len() - 1, file@.len() as int) =~= seq!['/']
            + name@);
    }
    true
}

/// Whether the string holds a slash.
fn contains_slash(s: &str) -> (r: bool)
    ensures
        r == s@.contains('/'),
{
    let len = s.unicode_len();
    let mut i: usize = 0;
    while i < len
        invariant
            i <= len,
            len == s@.len(),
            forall|j: int| 0 <= j < i ==> s@[j] != '/',
        decreases len - i,
    {
        if s.get_char(i) == '/' {
            proof {
                assert(s@[i as int] == '/');
            }
            return true;
        }
        i = i + 1;
    }
    false
}

fn matches_name(file: &str, name: &str) -> (r: bool)
    ensures
        r == spec_matches_name(file@, name@),
{
    if contains_slash(file) {
        ends_with_slash_name(file, name)
    } else {
        str_eq(file, name)
    }
}

impl PackageManager {
    pub fn get_lock_file_name(&self) -> (r: Vec<&'static str>)
        ensures
            r@.map_values(|s: &str| s@) == spec_lock_file_names(*self),
    {
        let mut r: Vec<&'static str> = Vec::new();
        match self {
            PackageManager::Npm => r.push("package-lock.json"),
            PackageManager::Yarn => r.push("yarn.lock"),
            PackageManager::Pnpm => r.push("pnpm-lock.yaml"),
            PackageManager::Bun => {
                r.push("bun.lockb");
                r.push("bun.lock");
            },
            PackageManager::Deno => r.push("lock.json"),
        }
        proof {
            assert(r@.map_values(|s: &str| s@) =~= spec_lock_file_names(*self));
        }
        r
    }

    pub fn get_identifier(&self) -> (r: &'static str)
        ensures
            r@ == spec_pm_identifier(*self),
    {
        match self {
            PackageManager::Npm => "npm",
            PackageManager::Yarn => "yarn",
            PackageManager::Pnpm => "pnpm",
            PackageManager::Bun => "bun",
            PackageManager::Deno => "deno",
        }
    }

    pub fn from_identifier(identifier: &str) -> (r: Option<PackageManager>)
        ensures
            r == spec_pm_from_identifier(identifier@),
    {
        if str_eq(identifier, "npm") {
            Some(PackageManager::Npm)
        } else if str_eq(identifier, "yarn") {
            Some(PackageManager::Yarn)
        } else if str_eq(identifier, "pnpm") {
            Some(PackageManager::Pnpm)
        } else if str_eq(identifier, "bun") {
            Some(PackageManager::Bun)
        } else if str_eq(identifier, "deno") {
            Some(PackageManager::Deno)
        } else {
            None
        }
    }

    pub fn matches_lock_file(&self, file_name: &str) -> (r: bool)
        ensures
            r == spec_matches_lock_file(*self, file_name@),
    {
        let names = self.get_lock_file_name();
        let mut i: usize = 0;
        while i < names.len()
            invariant
                i <= names@.len(),
                names@.map_values(|s: &str| s@) == spec_lock_file_names(*self),
                forall|j: int|
                    0 <= j < i ==> !spec_matches_name(
                        file_name@,
                        #[trigger] spec_lock_file_names(*self)[j],
                    ),
            decreases names@.len() - i,
        {
            proof {
                assert(spec_lock_file_names(*self)[i as int] == names@.map_values(
                    |s: &str| s@,
                )[i as int]);
            }
            if matches_name(file_name, names[i]) {
                return true;
            }
            i = i + 1;
        }
        false
    }

    pub fn iter_variants() -> (r: Vec<PackageManager>)
        ensures
            r@ == spec_pm_variants(),
    {
        let mut r: Vec<PackageManager> = Vec::new();
        r.push(PackageManager::Npm);
        r.push(PackageManager::Yarn);
        r.push(PackageManager::Pnpm);
        r.push(PackageManager::Bun);
        r.push(PackageManager::Deno);
        proof {
            assert(r@ =~= spec_pm_variants());
        }
        r
    }

    pub fn variants() -> (r: Vec<PackageManager>)
        ensures
            r@ == spec_pm_variants(),
    {
        PackageManager::iter_variants()
    }

    /// The package managers whose lock file occurs among the paths, each
    /// reported once, ordered by the first path that carries one.
    pub fn find_package_managers(file_paths: &Vec<String>) -> (r: Vec<PackageManager>)
        ensures
            r@ == spec_find_package_managers(file_paths@.map_values(|s: String| s@)),
            forall|pm: PackageManager|
                r@.contains(pm) <==> exists|i: int|
                    0 <= i < file_paths@.len() && spec_matches_lock_file(
                        pm,
                        (#[trigger] file_paths@[i])@,
                    ),
            forall|i: int, j: int| 0 <= i < j < r@.len() ==> r@[i] != r@[j],
    {
        let ghost paths = file_paths@.map_values(|s: String| s@);
        let variants = PackageManager::iter_variants();
        let mut r: Vec<PackageManager> = Vec::new();
        let mut i: usize = 0;
        proof {
            assert(paths.subrange(0, 0) =~= Seq::<Seq<char>>::empty());
        }
        while i < file_paths.len()
            invariant
                i <= file_paths@.len(),
                paths == file_paths@.map_values(|s: String| s@),
                variants@ == spec_pm_variants(),
                r@ == spec_find_package_managers(paths.subrange(0, i as int)),
                forall|pm: PackageManager|
                    r@.contains(pm) <==> exists|j: int|
                        0 <= j < i && spec_matches_lock_file(pm, (#[trigger] file_paths@[j])@),
                forall|p: int, q: int| 0 <= p < q < r@.len() ==> r@[p] != r@[q],
            decreases file_paths@.len() - i,
        {
            let ghost pre_paths = paths.subrange(0, i as int);
            let ghost cur_paths = paths.subrange(0, i + 1);
            let ghost pre = r@;
            proof {
                assert(cur_paths.drop_last() =~= pre_paths);
                assert(cur_paths.last() == paths[i as int]);
                assert(paths[i as int] == file_paths@[i as int]@);
                assert(variants@.skip(0) =~= variants@);
            }
            let path = &file_paths[i];
            let mut w: usize = 0;
            while w < variants.len()
                invariant
                    w <= variants@.len(),
                    variants@ == spec_pm_variants(),
                    i < file_paths@.len(),
                    path@ == file_paths@[i as int]@,
                    spec_scan_package_managers(r@, variants@.skip(w as int), path@)
                        == spec_scan_package_managers(pre, variants@, path@),
                    forall|pm: PackageManager|
                        r@.contains(pm) <==> pre.contains(pm) || (exists|u: int|
                            0 <= u < w && (#[trigger] variants@[u]) == pm
                                && spec_matches_lock_file(pm, path@)),
                    r@.len() >= pre.len(),
                    forall|p: int| 0 <= p < pre.len() ==> #[trigger] r@[p] == pre[p],
                    forall|p: int, q: int| 0 <= p < q < r@.len() ==> r@[p] != r@[q],
                decreases variants@.len() - w,
            {
                let pm = variants[w];
                let ghost before = r@;
                proof {
                    assert(variants@.skip(w as int)[0] == variants@[w as int]);
                    assert(variants@.skip(w as int).skip(1) =~= variants@.skip(w + 1));
                    assert forall|x: PackageManager|
                        before.contains(x) <==> pre.contains(x) || (exists|u: int|
                            0 <= u < w && (#[trigger] variants@[u]) == x
                                && spec_matches_lock_file(x, path@)) by {
                        assert(before.contains(x) == r@.contains(x));
                    }
                }
                if pm.matches_lock_file(path.as_str()) {
                    if !pm_list_contains(&r, pm) {
                        r.push(pm);
                        proof {
                            assert(r@[before.len() as int] == pm);
                            assert(r@.contains(pm));
                        }
                    }
                }
                proof {
                    assert(spec_scan_package_managers(before, variants@.skip(w as int), path@)
                        == spec_scan_package_managers(r@, variants@.skip(w + 1), path@));
                    assert forall|x: PackageManager|
                        r@.contains(x) <==> pre.contains(x) || (exists|u: int|
                            0 <= u < w + 1 && (#[trigger] variants@[u]) == x
                                && spec_matches_lock_file(x, path@)) by {
                        if r@.contains(x) {
                            if before.contains(x) {
                                if !pre.contains(x) {
                                    let u = choose|u: int|
                                        0 <= u < w && (#[trigger] variants@[u]) == x
                                            && spec_matches_lock_file(x, path@);
                                    assert(0 <= u < w + 1 && variants@[u] == x
                                        && spec_matches_lock_file(x, path@));
                                }
                            } else {
                                let p = choose|p: int| 0 <= p < r@.len() && r@[p] == x;
                                if p < before.len() {
                                    assert(before[p] == x);
                                }
                                assert(x == pm);
                                assert(variants@[w as int] == x && spec_matches_lock_file(
                                    x,
                                    path@,
                                ));
                            }
                        }
                        if pre.contains(x) || (exists|u: int|
                            0 <= u < w + 1 && (#[trigger] variants@[u]) == x
                                && spec_matches_lock_file(x, path@)) {
                            if pre.contains(x) || (exists|u: int|
                                0 <= u < w && (#[trigger] variants@[u]) == x
                                    && spec_matches_lock_file(x, path@)) {
                                assert(before.contains(x));
                                let p = choose|p: int|
                                    0 <= p < before.len() && before[p] == x;
                                assert(r@[p] == x);
                                assert(r@.contains(x));
                            } else {
                                let u = choose|u: int|
                                    0 <= u < w + 1 && (#[trigger] variants@[u]) == x
                                        && spec_matches_lock_file(x, path@);
                                assert(u == w);
                                assert(x == pm);
                                if before.contains(x) {
                                    let p = choose|p: int|
                                        0 <= p < before.len() && before[p] == x;
                                    assert(r@[p] == x);
                                } else {
                                    assert(r@[before.len() as int] == pm);
                                }
                                assert(r@.contains(x));
                            }
                        }
                    }
                }
                w = w + 1;
            }
            proof {
                assert(variants@.skip(variants@.len() as int) =~= Seq::<PackageManager>::empty());
                assert(r@ == spec_scan_package_managers(pre, spec_pm_variants(), path@));
                assert(r@ == spec_find_package_managers(cur_paths));
                assert forall|x: PackageManager| #![trigger r@.contains(x)]
                    r@.contains(x) <==> pre.contains(x) || (exists|u: int|
                        0 <= u < variants@.len() && (#[trigger] variants@[u]) == x
                            && spec_matches_lock_file(x, path@)) by {
                    assert(r@.contains(x) <==> pre.contains(x) || (exists|u: int|
                        0 <= u < variants@.len() && (#[trigger] variants@[u]) == x
                            && spec_matches_lock_file(x, path@)));
                }
                assert forall|pm: PackageManager|
                    r@.contains(pm) <==> exists|j: int|
                        0 <= j < i + 1 && spec_matches_lock_file(
                            pm,
                            (#[trigger] file_paths@[j])@,
                        ) by {
                    let vidx: int = match pm {
                        PackageManager::Npm => 0,
                        PackageManager::Yarn => 1,
                        PackageManager::Pnpm => 2,
                        PackageManager::Bun => 3,
                        PackageManager::Deno => 4,
                    };
                    assert(variants@[vidx] == pm);
                    if r@.contains(pm) {
                        if pre.contains(pm) {
                            let j = choose|j: int|
                                0 <= j < i && spec_matches_lock_file(
                                    pm,
                                    (#[trigger] file_paths@[j])@,
                                );
                            assert(0 <= j < i + 1 && spec_matches_lock_file(
                                pm,
                                file_paths@[j]@,
                            ));
                        } else {
                            let u = choose|u: int|
                                0 <= u < variants@.len() && (#[trigger] variants@[u]) == pm
                                    && spec_matches_lock_file(pm, path@);
                            assert(spec_matches_lock_file(pm, file_paths@[i as int]@));
                        }
                    }
                    if exists|j: int|
                        0 <= j < i + 1 && spec_matches_lock_file(
                            pm,
                            (#[trigger] file_paths@[j])@,
                        ) {
                        let j = choose|j: int|
                            0 <= j < i + 1 && spec_matches_lock_file(
                                pm,
                                (#[trigger] file_paths@[j])@,
                            );
                        if j < i {
                            assert(pre.contains(pm));
                            let p = choose|p: int| 0 <= p < pre.len() && pre[p] == pm;
                            assert(r@[p] == pm);
                            assert(r@.contains(pm));
                        } else {
                            assert(spec_matches_lock_file(pm, path@));
                            assert(0 <= vidx < variants@.len() && variants@[vidx] == pm
                                && spec_matches_lock_file(pm, path@));
                            assert(r@.contains(pm));
                        }
                    }
                }
            }
            i = i + 1;
        }
        proof {
            assert(paths.subrange(0, paths.len() as int) =~= paths);
        }
        r
    }
}

/// One path scanned against the variants in order: every variant whose lock
/// file the path names and that is not yet listed is appended.
pub open spec fn spec_scan_package_managers(
    acc: Seq<PackageManager>,
    vars: Seq<PackageManager>,
    path: Seq<char>,
) -> Seq<PackageManager>
    decreases vars.len(),
{
    if vars.len() == 0 {
        acc
    } else {
        let acc2 = if spec_matches_lock_file(vars[0], path) && !acc.contains(vars[0]) {
            acc.push(vars[0])
        } else {
            acc
        };
        spec_scan_package_managers(acc2, vars.skip(1), path)
    }
}

/// The package managers named by a path list, each once, ordered by the
/// first path that carries one of their lock files.
pub open spec fn spec_find_package_managers(paths: Seq<Seq<char>>) -> Seq<PackageManager>
    decreases paths.len(),
{
    if paths.len() == 0 {
        Seq::empty()
    } else {
        spec_scan_package_managers(
            spec_find_package_managers(paths.drop_last()),
            spec_pm_variants(),
            paths.last(),
        )
    }
}

/// Whether the list holds this package manager.
fn pm_list_contains(list: &Vec<PackageManager>, pm: PackageManager) -> (r: bool)
    ensures
        r == list@.contains(pm),
{
    let mut i: usize = 0;
    while i < list.len()
        invariant
            i <= list@.len(),
            forall|j: int| 0 <= j < i ==> list@[j] != pm,
        decreases list@.len() - i,
    {
        if list[i] == pm {
            return true;
        }
        i = i + 1;
    }
    false
}

pub open spec fn spec_pm_variants() -> Seq<PackageManager> {
    seq![
        PackageManager::Npm,
        PackageManager::Yarn,
        PackageManager::Pnpm,
        PackageManager::Bun,
        PackageManager::Deno,
    ]
}

pub open spec fn spec_pm_from_identifier(s: Seq<char>) -> Option<PackageManager> {
    if s == "npm"@ {
        Option::Some(PackageManager::Npm)
    } else if s == "yarn"@ {
        Option::Some(PackageManager::Yarn)
    } else if s == "pnpm"@ {
        Option::Some(PackageManager::Pnpm)
    } else if s == "bun"@ {
        Option::Some(PackageManager::Bun)
    } else if s == "deno"@ {
        Option::Some(PackageManager::Deno)
    } else {
        Option::None
    }
}

} // verus!
