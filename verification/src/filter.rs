//! Test filters and the count of jobs a run is expected to submit.
use vstd::prelude::*;

use crate::test_db::{Artifact, Package, TestDb};
use crate::text::{chars_of, ends_with_chars, str_is};

verus! {

/// A predicate over test cases, evaluated on whatever parts of the triple
/// are bound. Implementations must decide once the artifact and the case
/// are both bound.
pub trait TestFilter {
    /// What the filter means.
    spec fn spec_filter(
        &self,
        package: Seq<char>,
        artifact: Option<Seq<char>>,
        case: Option<Seq<char>>,
    ) -> Option<bool>;

    /// Evaluate the filter.
    fn filter(
        &self,
        package: &String,
        artifact: Option<&String>,
        case: Option<&String>,
    ) -> (r: Option<bool>)
        ensures
            r == self.spec_filter(
                package@,
                match artifact {
                    Some(a) => Some(a@),
                    None => None,
                },
                match case {
                    Some(c) => Some(c@),
                    None => None,
                },
            ),
            artifact.is_some() && case.is_some() ==> r.is_some(),
    ;
}

/// The simple built-in filter language.
pub enum SimpleFilter {
    All,
    Nothing,
    Package(String),
    ArtifactEndsWith(String),
}

impl TestFilter for SimpleFilter {
    open spec fn spec_filter(
        &self,
        package: Seq<char>,
        artifact: Option<Seq<char>>,
        case: Option<Seq<char>>,
    ) -> Option<bool> {
        match self {
            SimpleFilter::All => Some(true),
            SimpleFilter::Nothing => Some(false),
            SimpleFilter::Package(p) => Some(package == p@),
            SimpleFilter::ArtifactEndsWith(s) => match artifact {
                Some(a) => Some(s@.is_suffix_of(a)),
                None => None,
            },
        }
    }

    fn filter(
        &self,
        package: &String,
        artifact: Option<&String>,
        case: Option<&String>,
    ) -> (r: Option<bool>) {
        match self {
            SimpleFilter::All => Some(true),
            SimpleFilter::Nothing => Some(false),
            SimpleFilter::Package(p) => Some(str_is(package, p.as_str())),
            SimpleFilter::ArtifactEndsWith(s) => match artifact {
                Some(a) => {
                    let ac = chars_of(a.as_str());
                    let sc = chars_of(s.as_str());
                    Some(ends_with_chars(&ac, &sc))
                },
                None => None,
            },
        }
    }
}

/// The cases in a list of artifacts, counted front to back.
pub open spec fn arts_case_total<M>(arts: Seq<Artifact<M>>) -> nat
    decreases arts.len(),
{
    if arts.len() == 0 {
        0
    } else {
        arts[0].case_names@.len() + arts_case_total(arts.skip(1))
    }
}

/// The cases in a list of packages.
pub open spec fn pkgs_case_total<M>(pkgs: Seq<Package<M>>) -> nat
    decreases pkgs.len(),
{
    if pkgs.len() == 0 {
        0
    } else {
        arts_case_total(pkgs[0].artifacts@) + pkgs_case_total(pkgs.skip(1))
    }
}

/// How many cases of one artifact the filter decidedly selects.
pub open spec fn art_selected<M, F: TestFilter>(
    f: F,
    pkg: Seq<char>,
    art: Seq<char>,
    cases: Seq<String>,
) -> nat
    decreases cases.len(),
{
    if cases.len() == 0 {
        0
    } else {
        (if f.spec_filter(pkg, Some(art), Some(cases[0]@)) == Some(true) {
            1nat
        } else {
            0nat
        }) + art_selected::<M, F>(f, pkg, art, cases.skip(1))
    }
}

/// How many cases of one package the filter selects.
pub open spec fn pkg_selected<M, F: TestFilter>(
    f: F,
    pkg: Seq<char>,
    keys: Seq<String>,
    arts: Seq<Artifact<M>>,
) -> nat
    decreases arts.len(),
{
    if arts.len() == 0 || keys.len() == 0 {
        0
    } else {
        art_selected::<M, F>(f, pkg, keys[0]@, arts[0].case_names@) + pkg_selected::<M, F>(
            f,
            pkg,
            keys.skip(1),
            arts.skip(1),
        )
    }
}

/// Whether a package name occurs in the known-package list.
pub open spec fn pkg_listed(packages: Seq<String>, p: Seq<char>) -> bool {
    exists|i: int| 0 <= i < packages.len() && packages[i]@ == p
}

/// How many cases of the whole database a run is expected to submit: the
/// cases of known packages that the filter decidedly selects.
pub open spec fn db_selected<M, F: TestFilter>(
    f: F,
    packages: Seq<String>,
    names: Seq<String>,
    pkgs: Seq<Package<M>>,
) -> nat
    decreases pkgs.len(),
{
    if pkgs.len() == 0 || names.len() == 0 {
        0
    } else {
        (if pkg_listed(packages, names[0]@) {
            pkg_selected::<M, F>(f, names[0]@, pkgs[0].artifact_keys@, pkgs[0].artifacts@)
        } else {
            0nat
        }) + db_selected::<M, F>(f, packages, names.skip(1), pkgs.skip(1))
    }
}

proof fn lemma_arts_total_split<M>(arts: Seq<Artifact<M>>, i: int)
    requires
        0 <= i <= arts.len(),
    ensures
        arts_case_total(arts) == arts_case_total(arts.take(i)) + arts_case_total(arts.skip(i)),
    decreases i,
{
    if i == 0 {
        assert(arts.take(0) =~= Seq::<Artifact<M>>::empty());
        assert(arts.skip(0) =~= arts);
    } else {
        assert(arts.take(i)[0] == arts[0]);
        assert(arts.take(i).skip(1) =~= arts.skip(1).take(i - 1));
        assert(arts.skip(i) =~= arts.skip(1).skip(i - 1));
        lemma_arts_total_split(arts.skip(1), i - 1);
    }
}

proof fn lemma_art_selected_step<M, F: TestFilter>(
    f: F,
    pkg: Seq<char>,
    art: Seq<char>,
    cases: Seq<String>,
    k: int,
)
    requires
        0 <= k < cases.len(),
    ensures
        art_selected::<M, F>(f, pkg, art, cases.take(k + 1)) == art_selected::<M, F>(
            f,
            pkg,
            art,
            cases.take(k),
        ) + (if f.spec_filter(pkg, Some(art), Some(cases[k]@)) == Some(true) {
            1nat
        } else {
            0nat
        }),
    decreases k,
{
    if k == 0 {
        assert(cases.take(1)[0] == cases[0]);
        assert(cases.take(1).skip(1) =~= Seq::<String>::empty());
        assert(cases.take(0) =~= Seq::<String>::empty());
    } else {
        assert(cases.take(k + 1)[0] == cases[0]);
        assert(cases.take(k)[0] == cases[0]);
        assert(cases.take(k + 1).skip(1) =~= cases.skip(1).take(k));
        assert(cases.take(k).skip(1) =~= cases.skip(1).take(k - 1));
        assert(cases.skip(1)[k - 1] == cases[k]);
        lemma_art_selected_step::<M, F>(f, pkg, art, cases.skip(1), k - 1);
    }
}

proof fn lemma_pkg_selected_step<M, F: TestFilter>(
    f: F,
    pkg: Seq<char>,
    keys: Seq<String>,
    arts: Seq<Artifact<M>>,
    j: int,
)
    requires
        0 <= j < arts.len(),
        keys.len() == arts.len(),
    ensures
        pkg_selected::<M, F>(f, pkg, keys.take(j + 1), arts.take(j + 1)) == pkg_selected::<
            M,
            F,
        >(f, pkg, keys.take(j), arts.take(j)) + art_selected::<M, F>(
            f,
            pkg,
            keys[j]@,
            arts[j].case_names@,
        ),
    decreases j,
{
    if j == 0 {
        assert(keys.take(1)[0] == keys[0]);
        assert(arts.take(1)[0] == arts[0]);
        assert(keys.take(1).skip(1) =~= Seq::<String>::empty());
        assert(arts.take(1).skip(1) =~= Seq::<Artifact<M>>::empty());
        assert(keys.take(0) =~= Seq::<String>::empty());
        assert(arts.take(0) =~= Seq::<Artifact<M>>::empty());
    } else {
        assert(keys.take(j + 1)[0] == keys[0]);
        assert(arts.take(j + 1)[0] == arts[0]);
        assert(keys.take(j)[0] == keys[0]);
        assert(arts.take(j)[0] == arts[0]);
        assert(keys.take(j + 1).skip(1) =~= keys.skip(1).take(j));
        assert(arts.take(j + 1).skip(1) =~= arts.skip(1).take(j));
        assert(keys.take(j).skip(1) =~= keys.skip(1).take(j - 1));
        assert(arts.take(j).skip(1) =~= arts.skip(1).take(j - 1));
        assert(keys.skip(1)[j - 1] == keys[j]);
        assert(arts.skip(1)[j - 1] == arts[j]);
        lemma_pkg_selected_step::<M, F>(f, pkg, keys.skip(1), arts.skip(1), j - 1);
    }
}

proof fn lemma_db_selected_step<M, F: TestFilter>(
    f: F,
    packages: Seq<String>,
    names: Seq<String>,
    pkgs: Seq<Package<M>>,
    i: int,
)
    requires
        0 <= i < pkgs.len(),
        names.len() == pkgs.len(),
    ensures
        db_selected::<M, F>(f, packages, names.take(i + 1), pkgs.take(i + 1)) == db_selected::<
            M,
            F,
        >(f, packages, names.take(i), pkgs.take(i)) + (if pkg_listed(packages, names[i]@) {
            pkg_selected::<M, F>(f, names[i]@, pkgs[i].artifact_keys@, pkgs[i].artifacts@)
        } else {
            0nat
        }),
    decreases i,
{
    if i == 0 {
        assert(names.take(1)[0] == names[0]);
        assert(pkgs.take(1)[0] == pkgs[0]);
        assert(names.take(1).skip(1) =~= Seq::<String>::empty());
        assert(pkgs.take(1).skip(1) =~= Seq::<Package<M>>::empty());
        assert(names.take(0) =~= Seq::<String>::empty());
        assert(pkgs.take(0) =~= Seq::<Package<M>>::empty());
    } else {
        assert(names.take(i + 1)[0] == names[0]);
        assert(pkgs.take(i + 1)[0] == pkgs[0]);
        assert(names.take(i)[0] == names[0]);
        assert(pkgs.take(i)[0] == pkgs[0]);
        assert(names.take(i + 1).skip(1) =~= names.skip(1).take(i));
        assert(pkgs.take(i + 1).skip(1) =~= pkgs.skip(1).take(i));
        assert(names.take(i).skip(1) =~= names.skip(1).take(i - 1));
        assert(pkgs.take(i).skip(1) =~= pkgs.skip(1).take(i - 1));
        assert(names.skip(1)[i - 1] == names[i]);
        assert(pkgs.skip(1)[i - 1] == pkgs[i]);
        lemma_db_selected_step::<M, F>(f, packages, names.skip(1), pkgs.skip(1), i - 1);
    }
}

/// Selected cases never outnumber the cases there are.
proof fn lemma_art_selected_le<M, F: TestFilter>(
    f: F,
    pkg: Seq<char>,
    art: Seq<char>,
    cases: Seq<String>,
)
    ensures
        art_selected::<M, F>(f, pkg, art, cases) <= cases.len(),
    decreases cases.len(),
{
    if cases.len() > 0 {
        lemma_art_selected_le::<M, F>(f, pkg, art, cases.skip(1));
    }
}

fn contains_string(v: &Vec<String>, s: &String) -> (r: bool)
    ensures
        r == pkg_listed(v@, s@),
{
    let mut i: usize = 0;
    while i < v.len()
        invariant
            i <= v@.len(),
            forall|j: int| 0 <= j < i ==> v@[j]@ != s@,
        decreases v@.len() - i,
    {
        if str_is(&v[i], s.as_str()) {
            return true;
        }
        i = i + 1;
    }
    proof {
        if pkg_listed(v@, s@) {
            let w = choose|w: int| 0 <= w < v@.len() && v@[w]@ == s@;
            assert(false);
        }
    }
    false
}

impl<M> TestDb<M> {
    /// How many jobs a run over the known packages will submit: every case
    /// of a known package that the filter decidedly selects.
    #[verifier::rlimit(100)]
    pub fn expected_job_count<F: TestFilter>(&self, packages: &Vec<String>, filter: &F) -> (r:
        u64)
        requires
            self.wf(),
            pkgs_case_total(self.packages@) <= u64::MAX,
        ensures
            r as nat == db_selected::<M, F>(*filter, packages@, self.package_names@, self.packages@),
    {
        let mut count: u64 = 0;
        let mut i: usize = 0;
        let ghost names = self.package_names@;
        let ghost pkgs = self.packages@;
        proof {
            assert(names.take(0) =~= Seq::<String>::empty());
            assert(pkgs.take(0) =~= Seq::<Package<M>>::empty());
            assert(pkgs.skip(0) =~= pkgs);
        }
        while i < self.packages.len()
            invariant
                i <= pkgs.len(),
                self.wf(),
                names == self.package_names@,
                pkgs == self.packages@,
                names.len() == pkgs.len(),
                pkgs_case_total(pkgs) <= u64::MAX,
                count as nat == db_selected::<M, F>(*filter, packages@, names.take(i as int), pkgs.take(i as int)),
                count as nat + pkgs_case_total(pkgs.skip(i as int)) <= pkgs_case_total(pkgs),
            decreases pkgs.len() - i,
        {
            let ghost pre_count = count as nat;
            let pkg = &self.packages[i];
            proof {
                assert(pkgs[i as int].wf());
                assert(pkgs.skip(i as int)[0] == pkgs[i as int]);
                assert(pkgs.skip(i as int).skip(1) =~= pkgs.skip(i + 1));
            }
            if contains_string(packages, &self.package_names[i]) {
                let ghost pname = names[i as int]@;
                let mut j: usize = 0;
                let ghost keys = pkg.artifact_keys@;
                let ghost arts = pkg.artifacts@;
                proof {
                    assert(keys.take(0) =~= Seq::<String>::empty());
                    assert(arts.take(0) =~= Seq::<Artifact<M>>::empty());
                    assert(arts.skip(0) =~= arts);
                }
                while j < pkg.artifacts.len()
                    invariant
                        j <= arts.len(),
                        pkg.wf(),
                        keys == pkg.artifact_keys@,
                        arts == pkg.artifacts@,
                        keys.len() == arts.len(),
                        names == self.package_names@,
                        names.len() == pkgs.len(),
                        pkgs_case_total(pkgs) <= u64::MAX,
                        count as nat == pre_count + pkg_selected::<M, F>(
                            *filter,
                            pname,
                            keys.take(j as int),
                            arts.take(j as int),
                        ),
                        count as nat + arts_case_total(arts.skip(j as int))
                            + pkgs_case_total(pkgs.skip(i + 1)) <= pkgs_case_total(pkgs),
                        i < pkgs.len(),
                        pkgs[i as int] == *pkg,
                        pname == names[i as int]@,
                    decreases arts.len() - j,
                {
                    let ghost pre_art_count = count as nat;
                    let art = &pkg.artifacts[j];
                    proof {
                        assert(arts[j as int].wf());
                        lemma_arts_total_split(arts, j as int);
                        assert(arts.skip(j as int)[0] == arts[j as int]);
                        assert(arts.skip(j as int).skip(1) =~= arts.skip(j + 1));
                    }
                    let mut k: usize = 0;
                    let ghost cases = art.case_names@;
                    proof {
                        assert(cases.take(0) =~= Seq::<String>::empty());
                    }
                    while k < art.case_names.len()
                        invariant
                            k <= cases.len(),
                            art.wf(),
                            cases == art.case_names@,
                            names == self.package_names@,
                            names.len() == pkgs.len(),
                            pkgs_case_total(pkgs) <= u64::MAX,
                            count as nat == pre_art_count + art_selected::<M, F>(
                                *filter,
                                pname,
                                keys[j as int]@,
                                cases.take(k as int),
                            ),
                            count as nat + (cases.len() - k) + arts_case_total(
                                arts.skip(j + 1),
                            ) + pkgs_case_total(pkgs.skip(i + 1)) <= pkgs_case_total(pkgs),
                            j < arts.len(),
                            i < pkgs.len(),
                            arts[j as int] == *art,
                            keys.len() == arts.len(),
                            pname == names[i as int]@,
                            pkgs[i as int] == *pkg,
                            keys == pkg.artifact_keys@,
                            arts == pkg.artifacts@,
                        decreases cases.len() - k,
                    {
                        let decided = filter.filter(
                            &self.package_names[i],
                            Some(&pkg.artifact_keys[j]),
                            Some(&art.case_names[k]),
                        );
                        proof {
                            lemma_art_selected_step::<M, F>(
                                *filter,
                                pname,
                                keys[j as int]@,
                                cases,
                                k as int,
                            );
                        }
                        match decided {
                            Some(true) => {
                                count = count + 1;
                            },
                            Some(false) => {},
                            None => {
                                proof {
                                    assert(false);
                                }
                            },
                        }
                        k = k + 1;
                    }
                    proof {
                        assert(cases.take(cases.len() as int) =~= cases);
                        lemma_pkg_selected_step::<M, F>(*filter, pname, keys, arts, j as int);
                        lemma_art_selected_le::<M, F>(*filter, pname, keys[j as int]@, cases);
                    }
                    j = j + 1;
                }
                proof {
                    assert(keys.take(keys.len() as int) =~= keys);
                    assert(arts.take(arts.len() as int) =~= arts);
                    lemma_db_selected_step::<M, F>(*filter, packages@, names, pkgs, i as int);
                }
            } else {
                proof {
                    lemma_db_selected_step::<M, F>(*filter, packages@, names, pkgs, i as int);
                }
            }
            i = i + 1;
        }
        proof {
            assert(names.take(names.len() as int) =~= names);
            assert(pkgs.take(pkgs.len() as int) =~= pkgs);
        }
        count
    }
}

} // verus!
