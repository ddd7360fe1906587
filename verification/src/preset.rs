//! Named presets: ordered lists of configuration entries, and the batch
//! driver that reconciles a whole preset.

use vstd::prelude::*;

use crate::context::Context;
use crate::expand::{opt_str_view, PathError};
use crate::filesystem::FileSystem;
use crate::link::{
    batch_fs, batch_outcomes, log_view, paired, reconcile_all, reqs_view, LinkOutcome,
    LinkRequest, LinkRequestView, Symlinkable,
};
use crate::parse::Entry;

verus! {

/// One preset: the entries to reconcile, in listed order.
pub struct Preset {
    pub link: Vec<Entry>,
}

/// The requests a list of entries describes: each entry's requests, in
/// entry order.
pub open spec fn preset_requests(
    entries: Seq<Entry>,
    pwd: Seq<char>,
    home: Option<Seq<char>>,
) -> Seq<LinkRequestView>
    decreases entries.len(),
{
    if entries.len() == 0 {
        Seq::empty()
    } else {
        preset_requests(entries.drop_last(), pwd, home) + entries.last().requests(pwd, home)
    }
}

/// Whether every entry of the list expands.
pub open spec fn preset_expand_ok(entries: Seq<Entry>, home: Option<Seq<char>>) -> bool {
    forall|i: int| 0 <= i < entries.len() ==> (#[trigger] entries[i]).expand_ok(home)
}

/// The error of the first entry that fails to expand.
pub open spec fn preset_first_err(entries: Seq<Entry>, home: Option<Seq<char>>) -> PathError
    decreases entries.len(),
{
    if entries.len() == 0 {
        PathError::FilesystemError
    } else if !entries.first().expand_ok(home) {
        entries.first().expand_err(home)
    } else {
        preset_first_err(entries.drop_first(), home)
    }
}

proof fn lemma_preset_first_err(entries: Seq<Entry>, home: Option<Seq<char>>, i: int)
    requires
        0 <= i < entries.len(),
        forall|j: int| 0 <= j < i ==> (#[trigger] entries[j]).expand_ok(home),
        !entries[i].expand_ok(home),
    ensures
        preset_first_err(entries, home) == entries[i].expand_err(home),
    decreases i,
{
    if i == 0 {
    } else {
        assert(entries.first().expand_ok(home));
        lemma_preset_first_err(entries.drop_first(), home, i - 1);
    }
}

impl Preset {
    /// Reconciles this preset: expands every entry first — failing as a
    /// whole, before any mutation, when any destination does not resolve —
    /// then reconciles the expanded requests in order, returning the log.
    pub fn apply(&self, fs: &mut FileSystem, ctx: &Context) -> (r: Result<
        Vec<(LinkRequest, LinkOutcome)>,
        PathError,
    >)
        ensures
            match r {
                Ok(log) => {
                    &&& preset_expand_ok(self.link@, opt_str_view(ctx.home))
                    &&& log_view(log@) == paired(
                        preset_requests(self.link@, ctx.pwd@, opt_str_view(ctx.home)),
                        batch_outcomes(
                            old(fs)@,
                            preset_requests(self.link@, ctx.pwd@, opt_str_view(ctx.home)),
                            ctx.dry_run,
                        ),
                    )
                    &&& final(fs)@ == batch_fs(
                        old(fs)@,
                        preset_requests(self.link@, ctx.pwd@, opt_str_view(ctx.home)),
                        ctx.dry_run,
                    )
                },
                Err(e) => {
                    &&& !preset_expand_ok(self.link@, opt_str_view(ctx.home))
                    &&& e == preset_first_err(self.link@, opt_str_view(ctx.home))
                    &&& final(fs)@ == old(fs)@
                },
            },
    {
        let mut reqs: Vec<LinkRequest> = Vec::new();
        let mut i: usize = 0;
        proof {
            assert(reqs_view(reqs@) =~~= preset_requests(
                self.link@.subrange(0, 0),
                ctx.pwd@,
                opt_str_view(ctx.home),
            ));
        }
        while i < self.link.len()
            invariant
                i <= self.link@.len(),
                reqs_view(reqs@) == preset_requests(
                    self.link@.subrange(0, i as int),
                    ctx.pwd@,
                    opt_str_view(ctx.home),
                ),
                forall|j: int|
                    0 <= j < i ==> (#[trigger] self.link@[j]).expand_ok(opt_str_view(ctx.home)),
            decreases self.link@.len() - i,
        {
            let ghost old_reqs = reqs@;
            let mut more = match self.link[i].expand(ctx) {
                Ok(v) => v,
                Err(e) => {
                    proof {
                        assert(!self.link@[i as int].expand_ok(opt_str_view(ctx.home)));
                        lemma_preset_first_err(self.link@, opt_str_view(ctx.home), i as int);
                    }
                    return Err(e);
                }
            };
            let ghost more_v = more@;
            reqs.append(&mut more);
            proof {
                assert(self.link@.subrange(0, i + 1).drop_last() =~= self.link@.subrange(
                    0,
                    i as int,
                ));
                assert(self.link@.subrange(0, i + 1).last() == self.link@[i as int]);
                assert(reqs_view(reqs@) =~~= reqs_view(old_reqs) + reqs_view(more_v));
                assert(reqs_view(reqs@) =~~= preset_requests(
                    self.link@.subrange(0, i + 1),
                    ctx.pwd@,
                    opt_str_view(ctx.home),
                ));
            }
            i = i + 1;
        }
        proof {
            assert(self.link@.subrange(0, self.link@.len() as int) =~= self.link@);
        }
        Ok(reconcile_all(fs, &reqs, ctx.dry_run))
    }
}

/// The presets of one configuration, by name, in insertion order.
pub struct Presets {
    entries: Vec<(String, Preset)>,
}

/// Index of the last occurrence of `name` in `keys`, or `-1`.
pub open spec fn find_last(keys: Seq<Seq<char>>, name: Seq<char>) -> int
    decreases keys.len(),
{
    if keys.len() == 0 {
        -1
    } else if keys.last() == name {
        keys.len() - 1
    } else {
        find_last(keys.drop_last(), name)
    }
}

impl Presets {
    /// The preset names, in insertion order.
    pub closed spec fn keys(&self) -> Seq<Seq<char>> {
        self.entries@.map_values(|p: (String, Preset)| p.0@)
    }

    /// The presets, in insertion order.
    pub closed spec fn presets(&self) -> Seq<Preset> {
        self.entries@.map_values(|p: (String, Preset)| p.1)
    }

    /// An empty collection of presets.
    pub fn new() -> (r: Self)
        ensures
            r.keys() == Seq::<Seq<char>>::empty(),
            r.presets() == Seq::<Preset>::empty(),
    {
        let r = Presets { entries: Vec::new() };
        proof {
            assert(r.keys() =~~= Seq::<Seq<char>>::empty());
            assert(r.presets() =~= Seq::<Preset>::empty());
        }
        r
    }

    /// Adds `preset` under `name`. A repeated name shadows the earlier
    /// preset, as [`Presets::get`] returns the latest entry for a name.
    pub fn insert(&mut self, name: String, preset: Preset)
        ensures
            final(self).keys() == old(self).keys().push(name@),
            final(self).presets() == old(self).presets().push(preset),
    {
        self.entries.push((name, preset));
        proof {
            assert(self.keys() =~~= old(self).keys().push(name@));
            assert(self.presets() =~= old(self).presets().push(preset));
        }
    }

    /// The preset names, in insertion order.
    pub fn names(&self) -> (r: Vec<String>)
        ensures
            r.deep_view() == self.keys(),
    {
        let mut r: Vec<String> = Vec::new();
        let mut i: usize = 0;
        proof {
            assert(r.deep_view() =~~= self.keys().subrange(0, 0));
        }
        while i < self.entries.len()
            invariant
                i <= self.entries@.len(),
                self.keys().len() == self.entries@.len(),
                r.deep_view() == self.keys().subrange(0, i as int),
            decreases self.entries@.len() - i,
        {
            proof {
                assert(r.deep_view().len() == r@.len());
                assert(r@.len() == i);
            }
            r.push(self.entries[i].0.clone());
            proof {
                assert(self.keys()[i as int] == self.entries@[i as int].0@);
                assert(r.deep_view() =~~= self.keys().subrange(0, i + 1));
            }
            i = i + 1;
        }
        proof {
            assert(self.keys().subrange(0, self.entries@.len() as int) =~~= self.keys());
        }
        r
    }

    /// The preset last inserted under `preset_name`, if any.
    pub fn get<'a>(&'a self, preset_name: &String) -> (r: Option<&'a Preset>)
        ensures
            match r {
                Some(p) => {
                    &&& find_last(self.keys(), preset_name@) >= 0
                    &&& *p == self.presets()[find_last(self.keys(), preset_name@)]
                },
                None => find_last(self.keys(), preset_name@) == -1,
            },
    {
        let mut i: usize = self.entries.len();
        proof {
            assert(self.keys().len() == self.entries@.len());
            assert(self.keys().subrange(0, i as int) =~~= self.keys());
        }
        while i > 0
            invariant
                i <= self.entries@.len(),
                self.keys().len() == self.entries@.len(),
                find_last(self.keys(), preset_name@) == find_last(
                    self.keys().subrange(0, i as int),
                    preset_name@,
                ),
            decreases i,
        {
            proof {
                assert(self.keys()[i - 1] == self.entries@[i - 1].0@);
                assert(self.keys().subrange(0, i as int).last() == self.keys()[i - 1]);
                assert(self.keys().subrange(0, i as int).drop_last() =~~= self.keys().subrange(
                    0,
                    i - 1,
                ));
            }
            if self.entries[i - 1].0 == *preset_name {
                proof {
                    assert(self.presets()[i - 1] == self.entries@[i - 1].1);
                }
                return Some(&self.entries[i - 1].1);
            }
            i = i - 1;
        }
        proof {
            assert(self.keys().subrange(0, 0) =~~= Seq::<Seq<char>>::empty());
        }
        None
    }
}

/// The well-known configuration file names, tried in a directory listing.
pub open spec fn is_config_file_name(name: Seq<char>) -> bool {
    name == "dotlink.toml"@ || name == "dotlink.yaml"@ || name == "dotlink.json"@
}

impl Presets {
    /// Index of the first entry of `file_names` that is a well-known
    /// configuration file name, if any.
    pub fn get_config_file_name(file_names: &Vec<String>) -> (r: Option<usize>)
        ensures
            match r {
                Some(i) => {
                    &&& i < file_names@.len()
                    &&& is_config_file_name(file_names.deep_view()[i as int])
                    &&& forall|j: int|
                        0 <= j < i ==> !is_config_file_name(file_names.deep_view()[j])
                },
                None => forall|j: int|
                    0 <= j < file_names@.len() ==> !is_config_file_name(
                        file_names.deep_view()[j],
                    ),
            },
    {
        let toml_name = String::from_str("dotlink.toml");
        let yaml_name = String::from_str("dotlink.yaml");
        let json_name = String::from_str("dotlink.json");
        let mut i: usize = 0;
        while i < file_names.len()
            invariant
                i <= file_names@.len(),
                toml_name@ == "dotlink.toml"@,
                yaml_name@ == "dotlink.yaml"@,
                json_name@ == "dotlink.json"@,
                forall|j: int| 0 <= j < i ==> !is_config_file_name(file_names.deep_view()[j]),
            decreases file_names@.len() - i,
        {
            let candidate = &file_names[i];
            proof {
                assert(file_names.deep_view()[i as int] == file_names@[i as int]@);
            }
            if *candidate == toml_name || *candidate == yaml_name || *candidate == json_name {
                return Some(i);
            }
            i = i + 1;
        }
        None
    }
}

/// The configuration formats a file may be written in.
#[derive(Clone, Copy, Debug, PartialEq, Eq, Structural)]
pub enum ConfigFormat {
    Toml,
    Yaml,
    Json,
}

/// The configuration format a file extension selects, if any.
pub fn config_format(extension: &String) -> (r: Option<ConfigFormat>)
    ensures
        match r {
            Some(f) => match f {
                ConfigFormat::Toml => extension@ == "toml"@,
                ConfigFormat::Yaml => extension@ == "yaml"@ || extension@ == "yml"@,
                ConfigFormat::Json => extension@ == "json"@,
            },
            None => {
                &&& extension@ != "toml"@
                &&& extension@ != "yaml"@
                &&& extension@ != "yml"@
                &&& extension@ != "json"@
            },
        },
{
    if *extension == String::from_str("toml") {
        Some(ConfigFormat::Toml)
    } else if *extension == String::from_str("yaml") || *extension == String::from_str("yml") {
        Some(ConfigFormat::Yaml)
    } else if *extension == String::from_str("json") {
        Some(ConfigFormat::Json)
    } else {
        None
    }
}

} // verus!
