//! Setting up a project: recognising the kind of project from the files
//! it has, and the initial local configuration.
use vstd::prelude::*;
use crate::project::{LocalConfig, Runnable};
use crate::strmap::StringMap;

verus! {

broadcast use vstd::string::group_string_axioms;

/// The files that indicate a project type, in the order they are checked,
/// each with the type it indicates.
pub open spec fn indicator_table() -> Seq<(Seq<char>, Seq<char>)> {
    seq![
        ("pom.xml"@, "java"@),
        ("build.gradle"@, "java"@),
        ("build.gradle.kts"@, "java"@),
        ("Cargo.toml"@, "rust"@),
        ("package.json"@, "node"@),
        ("go.mod"@, "go"@),
        ("pyproject.toml"@, "python"@),
        ("setup.py"@, "python"@),
        ("Makefile"@, "make"@),
        ("CMakeLists.txt"@, "cmake"@),
        ("composer.json"@, "php"@),
        ("Gemfile"@, "ruby"@),
    ]
}

/// The text of a pair of strings.
pub open spec fn pair_view(p: (String, String)) -> (Seq<char>, Seq<char>) {
    (p.0@, p.1@)
}

/// The indicator files and the project types they indicate.
pub fn indicators() -> (r: Vec<(String, String)>)
    ensures
        r@.map_values(|p: (String, String)| pair_view(p)) == indicator_table(),
{
    let mut v: Vec<(String, String)> = Vec::new();
    v.push(("pom.xml".to_string(), "java".to_string()));
    v.push(("build.gradle".to_string(), "java".to_string()));
    v.push(("build.gradle.kts".to_string(), "java".to_string()));
    v.push(("Cargo.toml".to_string(), "rust".to_string()));
    v.push(("package.json".to_string(), "node".to_string()));
    v.push(("go.mod".to_string(), "go".to_string()));
    v.push(("pyproject.toml".to_string(), "python".to_string()));
    v.push(("setup.py".to_string(), "python".to_string()));
    v.push(("Makefile".to_string(), "make".to_string()));
    v.push(("CMakeLists.txt".to_string(), "cmake".to_string()));
    v.push(("composer.json".to_string(), "php".to_string()));
    v.push(("Gemfile".to_string(), "ruby".to_string()));
    assert(v@.map_values(|p: (String, String)| pair_view(p)) =~= indicator_table());
    v
}

/// The project type indicated by the first indicator file that is
/// present; `present[i]` tells whether the `i`-th file of
/// [`indicator_table`] exists.
pub fn detect_project_type(present: &Vec<bool>) -> (r: Option<String>)
    requires
        present@.len() == indicator_table().len(),
    ensures
        match r {
            Some(t) => exists|i: int|
                0 <= i < present@.len() && present@[i] && t@ == indicator_table()[i].1 && forall|
                    j: int,
                | 0 <= j < i ==> !present@[j],
            None => forall|i: int| 0 <= i < present@.len() ==> !present@[i],
        },
{
    let table = indicators();
    let mut i: usize = 0;
    while i < present.len()
        invariant
            i <= present@.len() == table@.len(),
            table@.map_values(|p: (String, String)| pair_view(p)) == indicator_table(),
            forall|j: int| 0 <= j < i ==> !present@[j],
        decreases present@.len() - i,
    {
        if present[i] {
            proof {
                assert(pair_view(table@[i as int]) == indicator_table()[i as int]);
            }
            return Some(table[i].1.clone());
        }
        i += 1;
    }
    None
}

/// The local configuration a new project starts with: its detected type,
/// or `unknown`, and nothing else.
pub fn initial_local_config<V>(detected: Option<String>) -> (c: LocalConfig<V>)
    ensures
        c.project_type matches Some(t) && t@ == (match detected {
            Some(d) => d@,
            None => "unknown"@,
        }),
        c.subtype is None,
        c.vars@ == Map::<Seq<char>, V>::empty(),
        c.runnables@ == Map::<Seq<char>, Runnable>::empty(),
        c.commands@ == Map::<Seq<char>, Runnable>::empty(),
        c.lifecycle@ == Map::<Seq<char>, Runnable>::empty(),
{
    let kind_str = match detected {
        Some(d) => d,
        None => "unknown".to_string(),
    };
    let c = LocalConfig {
        project_type: Some(kind_str),
        subtype: None,
        vars: StringMap::new(),
        runnables: StringMap::new(),
        commands: StringMap::new(),
        lifecycle: StringMap::new(),
    };
    c
}

} // verus!
