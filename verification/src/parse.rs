//! Configuration entries and their expansion into link requests.
//!
//! One entry either names a single source file (with an optional rename at
//! the destination) or lists several names sharing one destination
//! directory. Expansion turns an entry into the flat, ordered sequence of
//! concrete requests the engine reconciles.

use vstd::prelude::*;

use crate::context::Context;
use crate::expand::{
    join, join_of, opt_str_view, path, resolve_err, resolve_ok, resolved, PathError,
};
use crate::filesystem::FileSystem;
use crate::link::{
    reconcile_all, reqs_view, LinkOutcome, LinkRequest, LinkRequestView, Symlinkable,
};

verus! {

/// One source file `name`, linked under destination directory `to`; the
/// link is named `rename` when given, else `name`.
pub struct SingleEntry {
    pub name: String,
    pub to: String,
    pub rename: Option<String>,
}

/// Several source files `names`, each linked under destination directory
/// `to` under its own name.
pub struct MultipleEntry {
    pub names: Vec<String>,
    pub to: String,
}

/// One configuration entry, in either shape.
pub enum Entry {
    Single(SingleEntry),
    Multiple(MultipleEntry),
}

/// Mathematical image of a [`SingleEntry`].
pub struct SingleEntryView {
    pub name: Seq<char>,
    pub to: Seq<char>,
    pub rename: Option<Seq<char>>,
}

/// Mathematical image of a [`MultipleEntry`].
pub struct MultipleEntryView {
    pub names: Seq<Seq<char>>,
    pub to: Seq<char>,
}

impl View for SingleEntry {
    type V = SingleEntryView;

    open spec fn view(&self) -> SingleEntryView {
        SingleEntryView {
            name: self.name@,
            to: self.to@,
            rename: match self.rename {
                Some(r) => Some(r@),
                None => None,
            },
        }
    }
}

impl View for MultipleEntry {
    type V = MultipleEntryView;

    open spec fn view(&self) -> MultipleEntryView {
        MultipleEntryView { names: self.names.deep_view(), to: self.to@ }
    }
}

/// The one request a single entry describes: its source under `pwd`, its
/// destination named `rename` (else `name`) under the resolved `to`.
pub open spec fn single_requests(
    e: SingleEntryView,
    pwd: Seq<char>,
    home: Option<Seq<char>>,
) -> Seq<LinkRequestView> {
    seq![
        LinkRequestView {
            source: join_of(pwd, e.name),
            destination: join_of(
                resolved(e.to, home),
                match e.rename {
                    Some(r) => r,
                    None => e.name,
                },
            ),
        },
    ]
}

/// The requests a multiple entry describes: one per name, in listed order,
/// each destination keeping its own name (no rename is available).
pub open spec fn multiple_requests(
    e: MultipleEntryView,
    pwd: Seq<char>,
    home: Option<Seq<char>>,
) -> Seq<LinkRequestView> {
    Seq::new(
        e.names.len(),
        |i: int|
            LinkRequestView {
                source: join_of(pwd, e.names[i]),
                destination: join_of(resolved(e.to, home), e.names[i]),
            },
    )
}

impl Symlinkable for SingleEntry {
    open spec fn requests(&self, pwd: Seq<char>, home: Option<Seq<char>>) -> Seq<
        LinkRequestView,
    > {
        single_requests(self@, pwd, home)
    }

    open spec fn expand_ok(&self, home: Option<Seq<char>>) -> bool {
        resolve_ok(self.to@, home)
    }

    open spec fn expand_err(&self, home: Option<Seq<char>>) -> PathError {
        resolve_err(self.to@, home)
    }

    fn apply(&self, fs: &mut FileSystem, ctx: &Context) -> Result<
        Vec<(LinkRequest, LinkOutcome)>,
        PathError,
    > {
        let reqs = match self.expand(ctx) {
            Ok(v) => v,
            Err(e) => {
                return Err(e);
            }
        };
        Ok(reconcile_all(fs, &reqs, ctx.dry_run))
    }
}

impl Symlinkable for MultipleEntry {
    open spec fn requests(&self, pwd: Seq<char>, home: Option<Seq<char>>) -> Seq<
        LinkRequestView,
    > {
        multiple_requests(self@, pwd, home)
    }

    open spec fn expand_ok(&self, home: Option<Seq<char>>) -> bool {
        resolve_ok(self.to@, home)
    }

    open spec fn expand_err(&self, home: Option<Seq<char>>) -> PathError {
        resolve_err(self.to@, home)
    }

    fn apply(&self, fs: &mut FileSystem, ctx: &Context) -> Result<
        Vec<(LinkRequest, LinkOutcome)>,
        PathError,
    > {
        let reqs = match self.expand(ctx) {
            Ok(v) => v,
            Err(e) => {
                return Err(e);
            }
        };
        Ok(reconcile_all(fs, &reqs, ctx.dry_run))
    }
}

impl Symlinkable for Entry {
    open spec fn requests(&self, pwd: Seq<char>, home: Option<Seq<char>>) -> Seq<
        LinkRequestView,
    > {
        match self {
            Entry::Single(e) => e.requests(pwd, home),
            Entry::Multiple(e) => e.requests(pwd, home),
        }
    }

    open spec fn expand_ok(&self, home: Option<Seq<char>>) -> bool {
        match self {
            Entry::Single(e) => e.expand_ok(home),
            Entry::Multiple(e) => e.expand_ok(home),
        }
    }

    open spec fn expand_err(&self, home: Option<Seq<char>>) -> PathError {
        match self {
            Entry::Single(e) => e.expand_err(home),
            Entry::Multiple(e) => e.expand_err(home),
        }
    }

    fn apply(&self, fs: &mut FileSystem, ctx: &Context) -> Result<
        Vec<(LinkRequest, LinkOutcome)>,
        PathError,
    > {
        match self {
            Entry::Single(e) => e.apply(fs, ctx),
            Entry::Multiple(e) => e.apply(fs, ctx),
        }
    }
}

impl SingleEntry {
    /// The one request this entry describes; fails exactly when its
    /// destination does not resolve.
    pub fn expand(&self, ctx: &Context) -> (r: Result<Vec<LinkRequest>, PathError>)
        ensures
            match r {
                Ok(v) => self.expand_ok(opt_str_view(ctx.home)) && reqs_view(v@)
                    == self.requests(ctx.pwd@, opt_str_view(ctx.home)),
                Err(e) => !self.expand_ok(opt_str_view(ctx.home)) && e == self.expand_err(
                    opt_str_view(ctx.home),
                ),
            },
    {
        let dst_dir = match path(self.to.as_str(), &ctx.home) {
            Ok(s) => s,
            Err(e) => {
                return Err(e);
            }
        };
        let file_name = match &self.rename {
            Some(r) => r.as_str(),
            None => self.name.as_str(),
        };
        let src = join(ctx.pwd.as_str(), self.name.as_str());
        let dst = join(dst_dir.as_str(), file_name);
        let mut v: Vec<LinkRequest> = Vec::new();
        v.push(LinkRequest { source: src, destination: dst });
        proof {
            assert(reqs_view(v@) =~~= single_requests(self@, ctx.pwd@, opt_str_view(ctx.home)));
        }
        Ok(v)
    }
}

impl MultipleEntry {
    /// The requests this entry describes, one per name in listed order;
    /// fails exactly when its destination does not resolve.
    pub fn expand(&self, ctx: &Context) -> (r: Result<Vec<LinkRequest>, PathError>)
        ensures
            match r {
                Ok(v) => self.expand_ok(opt_str_view(ctx.home)) && reqs_view(v@)
                    == self.requests(ctx.pwd@, opt_str_view(ctx.home)),
                Err(e) => !self.expand_ok(opt_str_view(ctx.home)) && e == self.expand_err(
                    opt_str_view(ctx.home),
                ),
            },
    {
        let dst_dir = match path(self.to.as_str(), &ctx.home) {
            Ok(s) => s,
            Err(e) => {
                return Err(e);
            }
        };
        let ghost reqs = multiple_requests(self@, ctx.pwd@, opt_str_view(ctx.home));
        let mut v: Vec<LinkRequest> = Vec::new();
        let mut i: usize = 0;
        proof {
            assert(reqs.len() == self.names@.len());
            assert(reqs_view(v@) =~~= reqs.subrange(0, 0));
        }
        while i < self.names.len()
            invariant
                i <= self.names@.len(),
                reqs == multiple_requests(self@, ctx.pwd@, opt_str_view(ctx.home)),
                reqs.len() == self.names@.len(),
                dst_dir@ == resolved(self.to@, opt_str_view(ctx.home)),
                reqs_view(v@) == reqs.subrange(0, i as int),
            decreases self.names@.len() - i,
        {
            let ghost old_v = v@;
            let src = join(ctx.pwd.as_str(), self.names[i].as_str());
            let dst = join(dst_dir.as_str(), self.names[i].as_str());
            v.push(LinkRequest { source: src, destination: dst });
            proof {
                assert(self@.names[i as int] == self.names@[i as int]@);
                assert(old_v.len() == i) by {
                    assert(reqs_view(old_v).len() == old_v.len());
                    assert(reqs.subrange(0, i as int).len() == i);
                }
                assert(reqs[i as int] == LinkRequestView {
                    source: join_of(ctx.pwd@, self@.names[i as int]),
                    destination: join_of(
                        resolved(self.to@, opt_str_view(ctx.home)),
                        self@.names[i as int],
                    ),
                });
                assert(reqs_view(v@) =~~= reqs.subrange(0, i + 1));
            }
            i = i + 1;
        }
        proof {
            assert(reqs.subrange(0, self.names@.len() as int) =~~= reqs);
        }
        Ok(v)
    }

    /// This entry as the equivalent single entries, in listed order: each
    /// name keeps its own name at the destination, with no rename.
    pub fn flatten(self) -> (v: Vec<SingleEntry>)
        ensures
            v@.len() == self.names@.len(),
            forall|i: int|
                0 <= i < v@.len() ==> #[trigger] v@[i].name == self.names@[i] && v@[i].to
                    == self.to && v@[i].rename is None,
    {
        let mut v: Vec<SingleEntry> = Vec::new();
        let mut i: usize = 0;
        while i < self.names.len()
            invariant
                i <= self.names@.len(),
                v@.len() == i,
                forall|j: int|
                    0 <= j < i ==> #[trigger] v@[j].name == self.names@[j] && v@[j].to == self.to
                        && v@[j].rename is None,
            decreases self.names@.len() - i,
        {
            let name = self.names[i].clone();
            v.push(SingleEntry { name, to: self.to.clone(), rename: None });
            i = i + 1;
        }
        v
    }
}

/// A single entry flattened out of a multiple entry describes exactly the
/// request the multiple entry describes at that position.
pub proof fn lemma_flatten_equivalent(
    e: MultipleEntryView,
    pwd: Seq<char>,
    home: Option<Seq<char>>,
    i: int,
)
    requires
        0 <= i < e.names.len(),
    ensures
        single_requests(SingleEntryView { name: e.names[i], to: e.to, rename: None }, pwd, home)
            == seq![multiple_requests(e, pwd, home)[i]],
{
    assert(single_requests(SingleEntryView { name: e.names[i], to: e.to, rename: None }, pwd, home)
        =~~= seq![multiple_requests(e, pwd, home)[i]]);
}

impl Entry {
    /// The requests this entry describes, in order; fails exactly when its
    /// destination does not resolve.
    pub fn expand(&self, ctx: &Context) -> (r: Result<Vec<LinkRequest>, PathError>)
        ensures
            match r {
                Ok(v) => self.expand_ok(opt_str_view(ctx.home)) && reqs_view(v@)
                    == self.requests(ctx.pwd@, opt_str_view(ctx.home)),
                Err(e) => !self.expand_ok(opt_str_view(ctx.home)) && e == self.expand_err(
                    opt_str_view(ctx.home),
                ),
            },
    {
        match self {
            Entry::Single(e) => e.expand(ctx),
            Entry::Multiple(e) => e.expand(ctx),
        }
    }
}

} // verus!
