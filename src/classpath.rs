//! The class path: the boot, extension and user sources, searched in that order.
use crate::paths::{class_to_path, join_path, spec_class_to_path, spec_join_path, trimmed};
use crate::source::{
    first_hit, plans, take_first_hit, settled_by, trim, ConfigError, LookupError, Outcome, Probe,
    ProbeFailure, Source,
};
use vstd::prelude::*;

verus! {

/// The three sources of a class path.
#[derive(Debug)]
pub struct Classpath {
    pub boot_classpath: Source,
    pub ext_classpath: Source,
    pub user_classpath: Source,
}

impl Classpath {
    /// A class path over the given boot, extension and user sources.
    pub fn new(boot: Source, ext: Source, user: Source) -> (r: Classpath)
        ensures
            r.boot_classpath == boot,
            r.ext_classpath == ext,
            r.user_classpath == user,
    {
        Classpath { boot_classpath: boot, ext_classpath: ext, user_classpath: user }
    }

    /// How many locations the boot and extension sources have together.
    pub open spec fn system_len(&self) -> nat {
        self.boot_classpath.leaves().len() + self.ext_classpath.leaves().len()
    }

    /// Every location, in search order: boot, then extension, then user.
    pub open spec fn leaves(&self) -> Seq<crate::source::Leaf> {
        self.boot_classpath.leaves() + self.ext_classpath.leaves() + self.user_classpath.leaves()
    }

    /// The kind of failure of a lookup that found nothing in `outs`: the user
    /// source's, from its own outcomes.
    pub open spec fn failure_kind(&self, outs: Seq<Outcome>) -> ProbeFailure {
        if outs.len() >= self.system_len() {
            self.user_classpath.failure_kind(outs.subrange(self.system_len() as int, outs.len() as int))
        } else {
            ProbeFailure::NotFound
        }
    }

    /// The probes for the class `class_name`, one for each location: those of the
    /// boot source, then of the extension source, then of the user source.
    pub fn plan(&self, class_name: &str) -> (r: Vec<Probe>)
        ensures
            plans(self.leaves(), spec_class_to_path(class_name@), r@),
    {
        let class_path = class_to_path(class_name);
        let cp = class_path.as_str();
        let mut out: Vec<Probe> = Vec::new();
        self.boot_classpath.append_plan(cp, &mut out);
        let ghost o1 = out@;
        self.ext_classpath.append_plan(cp, &mut out);
        let ghost o2 = out@;
        self.user_classpath.append_plan(cp, &mut out);
        let ghost o3 = out@;
        proof {
            let b = self.boot_classpath.leaves();
            let e = self.ext_classpath.leaves();
            let u = self.user_classpath.leaves();
            let all = self.leaves();
            assert forall|i: int| 0 <= i < all.len() implies probe_for_at(all, cp@, o3, i) by {
                if i < b.len() {
                    assert(o1.subrange(0, b.len() as int)[i] == o1[i]);
                    assert(o2.subrange(0, o1.len() as int)[i] == o2[i]);
                    assert(o3.subrange(0, o2.len() as int)[i] == o3[i]);
                    assert(all[i] == b[i]);
                } else if i < b.len() + e.len() {
                    let k = i - b.len();
                    assert(o2.subrange(o1.len() as int, o2.len() as int)[k] == o2[i]);
                    assert(o3.subrange(0, o2.len() as int)[i] == o3[i]);
                    assert(all[i] == e[k]);
                } else {
                    let k = i - b.len() - e.len();
                    assert(o3.subrange(o2.len() as int, o3.len() as int)[k] == o3[i]);
                    assert(all[i] == u[k]);
                }
            }
            assert forall|i: int| 0 <= i < all.len() implies crate::source::probe_for(
                all[i],
                cp@,
                #[trigger] o3[i],
            ) by {
                assert(probe_for_at(all, cp@, o3, i));
            }
        }
        out
    }

    /// Settles the lookup of `class_name` from the outcomes of the probes made so
    /// far, in the order of `plan`: the bytes of the first hit; nothing yet while
    /// no probe has hit and some are left; once all have failed, the user source's
    /// failure, which names the class and shows the user source.
    pub fn settle(&self, class_name: &str, outcomes: Vec<Outcome>) -> (r: Option<
        Result<Vec<u8>, LookupError>,
    >)
        requires
            outcomes@.len() <= self.leaves().len(),
        ensures
            settled_by(
                first_hit(outcomes@),
                outcomes@.len() == self.leaves().len(),
                self.failure_kind(outcomes@),
                class_name@,
                self.user_classpath.text(),
                r,
            ),
    {
        let n = outcomes.len();
        let b = self.boot_classpath.leaf_count();
        let e = self.ext_classpath.leaf_count();
        let u = self.user_classpath.leaf_count();
        let system_done = n >= b && n - b >= e;
        let complete = system_done && n - b - e == u;
        let kind = if system_done {
            self.user_classpath.failure_kind_at(&outcomes, b + e)
        } else {
            ProbeFailure::NotFound
        };
        match take_first_hit(outcomes) {
            Some(bytes) => Some(Ok(bytes)),
            None => {
                if complete {
                    Some(
                        Err(
                            LookupError {
                                kind,
                                class_name: String::from_str(class_name),
                                location: self.user_classpath.describe(),
                            },
                        ),
                    )
                } else {
                    None
                }
            },
        }
    }

    /// Shows the class path: the user source alone.
    pub fn describe(&self) -> (r: String)
        ensures
            r@ == self.user_classpath.text(),
    {
        self.user_classpath.describe()
    }

    /// The places where the runtime home is looked for, in order: the option
    /// itself, `./jre`, and, where the environment names a base directory, `jre`
    /// inside it.
    pub fn runtime_home_candidates(option: &str, env_base: Option<String>) -> (r: Vec<String>)
        ensures
            r@.len() == (if env_base is Some {
                3int
            } else {
                2int
            }),
            r@[0]@ == option@,
            r@[1]@ == "./jre"@,
            env_base matches Some(base) ==> r@[2]@ == spec_join_path(base@, "jre"@),
    {
        let mut r: Vec<String> = Vec::new();
        r.push(String::from_str(option));
        r.push(String::from_str("./jre"));
        match &env_base {
            Some(base) => r.push(join_path(base.as_str(), "jre")),
            None => {},
        }
        r
    }

    /// The first of `candidates` that exists (`exists` tells which do), or
    /// `NoRuntimeHome` where none does.
    pub fn choose_runtime_home(candidates: Vec<String>, exists: Vec<bool>) -> (r: Result<
        String,
        ConfigError,
    >)
        requires
            candidates@.len() == exists@.len(),
        ensures
            (forall|j: int| 0 <= j < exists@.len() ==> !exists@[j]) <==> (r matches Err(
                ConfigError::NoRuntimeHome,
            )),
            (exists|j: int| 0 <= j < exists@.len() && exists@[j]) ==> r is Ok,
            r matches Ok(home) ==> exists|i: int|
                0 <= i < exists@.len() && exists@[i] && (forall|j: int| 0 <= j < i ==> !exists@[j])
                    && home == candidates@[i],
    {
        let mut i: usize = 0;
        while i < exists.len()
            invariant
                i <= exists@.len(),
                candidates@.len() == exists@.len(),
                forall|j: int| 0 <= j < i ==> !exists@[j],
            decreases exists@.len() - i,
        {
            if exists[i] {
                let mut c = candidates;
                let home = c.swap_remove(i);
                return Ok(home);
            }
            i = i + 1;
        }
        Err(ConfigError::NoRuntimeHome)
    }

    /// The directories of the boot and extension archives under the runtime home:
    /// `lib` and `lib/ext`.
    pub fn system_dirs(home: &str) -> (r: (String, String))
        ensures
            r.0@ == spec_join_path(home@, "lib"@),
            r.1@ == spec_join_path(spec_join_path(home@, "lib"@), "ext"@),
    {
        let lib = join_path(home, "lib");
        let ext = join_path(lib.as_str(), "ext");
        (lib, ext)
    }

    /// The path that the user source is built from: the option, or the current
    /// directory `.` where the option is blank.
    pub fn user_path(cp_option: &str) -> (r: String)
        ensures
            trimmed(cp_option@).len() == 0 ==> r@ == "."@,
            trimmed(cp_option@).len() != 0 ==> r@ == cp_option@,
    {
        if trim(cp_option).unicode_len() == 0 {
            String::from_str(".")
        } else {
            String::from_str(cp_option)
        }
    }
}

/// Whether the probe at `i` of `probes` is the one for `class_path` in the
/// location at `i` of `leaves`.
pub open spec fn probe_for_at(
    leaves: Seq<crate::source::Leaf>,
    class_path: Seq<char>,
    probes: Seq<Probe>,
    i: int,
) -> bool {
    crate::source::probe_for(leaves[i], class_path, probes[i])
}

} // verus!
