//! The lock file of a project.
use vstd::prelude::*;
use vstd::string::*;
use crate::toml_config::{ConfigModel, KujavToml};

verus! {

/// The section of one dependency, with an empty line behind it.
pub open spec fn dependency_section(name: Seq<char>, version: Seq<char>) -> Seq<char> {
    "[[dependency]]\nname = \""@ + name + "\"\nversion = \""@ + version + "\"\n\n"@
}

/// The sections of the dependencies, one after the other.
pub open spec fn dependency_sections(deps: Seq<(Seq<char>, Seq<char>)>) -> Seq<char>
    decreases deps.len(),
{
    if deps.len() == 0 {
        Seq::empty()
    } else {
        dependency_sections(deps.drop_last()) + dependency_section(deps.last().0, deps.last().1)
    }
}

/// The head of a lock file: its version and the section of the package.
pub open spec fn lockfile_head(name: Seq<char>, version: Seq<char>) -> Seq<char> {
    "version = 1\n\n[[package]]\nname = \""@ + name + "\"\nversion = \""@ + version + "\"\n"@
}

/// The text of the lock file of a project: the head, and, if the project
/// has dependencies, an empty line and their sections in the order of
/// their names.
pub open spec fn lockfile_of(cfg: ConfigModel) -> Seq<char> {
    if cfg.dependencies.len() == 0 {
        lockfile_head(cfg.package.name, cfg.package.version)
    } else {
        lockfile_head(cfg.package.name, cfg.package.version) + "\n"@ + dependency_sections(
            cfg.dependencies,
        )
    }
}

/// The text of the lock file of a project.
pub fn lockfile_text(cfg: &KujavToml) -> (out: String)
    ensures
        out@ == lockfile_of(cfg@),
{
    let mut out = String::from_str("version = 1\n\n[[package]]\nname = \"");
    out.append(cfg.package.name.as_str());
    out.append("\"\nversion = \"");
    out.append(cfg.package.version.as_str());
    out.append("\"\n");
    let count = cfg.dependencies.len();
    if count == 0 {
        return out;
    }
    out.append("\n");
    let ghost head = out@;
    let ghost deps = cfg.dependencies@;
    let mut i: usize = 0;
    assert(deps.take(0) =~= Seq::<(Seq<char>, Seq<char>)>::empty());
    assert(head + dependency_sections(deps.take(0)) =~= head);
    while i < count
        invariant
            i <= count,
            count == deps.len(),
            deps == cfg.dependencies@,
            out@ == head + dependency_sections(deps.take(i as int)),
        decreases count - i,
    {
        let ghost before = out@;
        match cfg.dependencies.get(i) {
            Some((name, version)) => {
                out.append("[[dependency]]\nname = \"");
                out.append(name);
                out.append("\"\nversion = \"");
                out.append(version);
                out.append("\"\n\n");
                proof {
                    assert(deps.take(i as int + 1).drop_last() =~= deps.take(i as int));
                    assert(deps.take(i as int + 1).last() == deps[i as int]);
                    assert(out@ =~= before + dependency_section(name@, version@));
                    assert(out@ =~= head + dependency_sections(deps.take(i as int + 1)));
                }
            },
            None => {},
        }
        i += 1;
    }
    assert(deps.take(count as int) =~= deps);
    out
}

} // verus!
