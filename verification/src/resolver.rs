//! The check that what a project needs from outside is there.
use vstd::prelude::*;
use vstd::string::*;
use crate::errors::{ErrorKind, ErrorModel, KujavError};
use crate::toml_config::{KujavToml, texts_model};

verus! {

/// The first entry that is not there. Of each entry, `present` says at the
/// same position whether it is there; an entry of which it says nothing is
/// taken not to be there.
pub open spec fn first_missing(classpath: Seq<Seq<char>>, present: Seq<bool>) -> Option<
    Seq<char>,
>
    decreases classpath.len(),
{
    if classpath.len() == 0 {
        None
    } else if present.len() > 0 && present[0] {
        first_missing(classpath.drop_first(), present.drop_first())
    } else {
        Some(classpath[0])
    }
}

/// The error for an entry of the class path that is not there.
pub open spec fn missing_dependency(entry: Seq<char>) -> ErrorModel {
    ErrorModel {
        kind: ErrorKind::Dependency,
        message: "java classpath dependency not found: "@ + entry,
    }
}

/// Checks that every entry of the class path is there, given for each
/// entry whether it is.
pub fn validate_java_classpath(cfg: &KujavToml, present: &[bool]) -> (r: Result<(), KujavError>)
    ensures
        match r {
            Ok(()) => first_missing(cfg@.classpath, present@) is None,
            Err(e) => first_missing(cfg@.classpath, present@) matches Some(entry) && e@
                == missing_dependency(entry),
        },
{
    let ghost entries = cfg@.classpath;
    let mut i: usize = 0;
    assert(entries.skip(0) =~= entries);
    assert(present@.skip(0) =~= present@);
    while i < cfg.java.classpath.len()
        invariant
            i <= cfg.java.classpath.len(),
            entries == texts_model(cfg.java.classpath@),
            entries == cfg@.classpath,
            i <= present@.len(),
            first_missing(entries, present@) == first_missing(
                entries.skip(i as int),
                present@.skip(i as int),
            ),
        decreases cfg.java.classpath.len() - i,
    {
        if !(i < present.len() && present[i]) {
            let mut message = String::from_str("java classpath dependency not found: ");
            message.append(cfg.java.classpath[i].as_str());
            assert(entries.skip(i as int)[0] == cfg.java.classpath@[i as int]@);
            assert(i < present@.len() ==> present@.skip(i as int)[0] == present@[i as int]);
            return Err(KujavError::Dependency(message));
        }
        assert(present@.skip(i as int)[0] == present@[i as int]);
        assert(entries.skip(i as int).drop_first() =~= entries.skip(i as int + 1));
        assert(present@.skip(i as int).drop_first() =~= present@.skip(i as int + 1));
        i += 1;
    }
    Ok(())
}

} // verus!
