//! How the reader is started.

use crate::text::{same, trim, trimmed, view_of, views};
use vstd::prelude::*;

verus! {

/// The name of the reader on the desktop.
pub const APPLICATION_ID: &'static str = "io.github.feedlizard.FeedLizard";

/// The name of its compact companion.
pub const OMARCHY_APPLICATION_ID: &'static str = "io.github.feedlizard.FeedLizard.Omarchy";

/// Which of its two faces the reader shows.
#[derive(Clone, Copy, Debug, PartialEq, Eq, Structural)]
pub enum RuntimeMode {
    Standard,
    Omarchy,
}

/// How the reader is started: which face it shows, and the arguments that are
/// passed on.
#[derive(Debug, PartialEq, Eq)]
pub struct Launch {
    pub mode: RuntimeMode,
    pub gtk_args: Vec<String>,
}

/// The arguments that are passed on: all but the one that asks for the
/// companion.
pub open spec fn passed_on(args: Seq<Seq<char>>) -> Seq<Seq<char>>
    decreases args.len(),
{
    if args.len() == 0 {
        Seq::empty()
    } else if args.last() == "--omarchy"@ {
        passed_on(args.drop_last())
    } else {
        passed_on(args.drop_last()).push(args.last())
    }
}

/// Which face the reader shows.
pub open spec fn wanted_mode(args: Seq<Seq<char>>, environment: Option<Seq<char>>) -> RuntimeMode {
    if args.contains("--omarchy"@) || environment == Some("1"@) {
        RuntimeMode::Omarchy
    } else {
        RuntimeMode::Standard
    }
}

impl Launch {
    /// How the reader is started with the arguments `args`, where `environment`
    /// is what the environment says.
    pub fn from_inputs(args: Vec<String>, environment: Option<String>) -> (r: Self)
        ensures
            r.mode == wanted_mode(views(args@), view_of(environment)),
            views(r.gtk_args@) == passed_on(views(args@)),
    {
        let ghost all = views(args@);
        let mut explicit = false;
        let mut gtk_args: Vec<String> = Vec::new();
        let mut i: usize = 0;
        assert(views(gtk_args@) == Seq::<Seq<char>>::empty());
        while i < args.len()
            invariant
                i <= args@.len(),
                all == views(args@),
                explicit == all.take(i as int).contains("--omarchy"@),
                views(gtk_args@) == passed_on(all.take(i as int)),
            decreases args@.len() - i,
        {
            assert(all[i as int] == args@[i as int]@);
            let ghost shorter = all.take(i as int);
            let ghost longer = all.take(i + 1);
            assert(longer.drop_last() == shorter);
            assert(longer == shorter.push(all[i as int]));
            let ghost before = views(gtk_args@);
            if same(args[i].as_str(), "--omarchy") {
                explicit = true;
                assert(longer[i as int] == "--omarchy"@);
            } else {
                gtk_args.push(args[i].clone());
                assert(views(gtk_args@) == before.push(all[i as int]));
                proof {
                    if longer.contains("--omarchy"@) {
                        let k = choose|k: int| 0 <= k < longer.len() && longer[k] == "--omarchy"@;
                        assert(shorter[k] == longer[k]);
                    }
                    if shorter.contains("--omarchy"@) {
                        let k = choose|k: int|
                            0 <= k < shorter.len() && shorter[k] == "--omarchy"@;
                        assert(longer[k] == shorter[k]);
                    }
                }
            }
            i += 1;
        }
        assert(all.take(i as int) == all);
        let set = match &environment {
            Some(value) => same(value.as_str(), "1"),
            None => false,
        };
        let mode = if explicit || set {
            RuntimeMode::Omarchy
        } else {
            RuntimeMode::Standard
        };
        Launch { mode, gtk_args }
    }
}

/// The name of the reader on the desktop.
pub open spec fn named(mode: RuntimeMode) -> Seq<char> {
    match mode {
        RuntimeMode::Standard => APPLICATION_ID@,
        RuntimeMode::Omarchy => OMARCHY_APPLICATION_ID@,
    }
}

/// The name of the reader on the desktop, for the face that it shows.
pub fn application_id(mode: RuntimeMode) -> (r: &'static str)
    ensures
        r@ == named(mode),
{
    match mode {
        RuntimeMode::Standard => APPLICATION_ID,
        RuntimeMode::Omarchy => OMARCHY_APPLICATION_ID,
    }
}

/// Two faces of the reader never have the same name.
pub proof fn law_application_ids_differ(a: RuntimeMode, b: RuntimeMode)
    requires
        a != b,
    ensures
        named(a) != named(b),
{
    reveal_strlit("io.github.feedlizard.FeedLizard");
    reveal_strlit("io.github.feedlizard.FeedLizard.Omarchy");
    assert(APPLICATION_ID@.len() != OMARCHY_APPLICATION_ID@.len());
}

/// A text without the slashes at its end.
pub open spec fn without_slashes(text: Seq<char>) -> Seq<char>
    decreases text.len(),
{
    if text.len() > 0 && text.last() == '/' {
        without_slashes(text.drop_last())
    } else {
        text
    }
}

/// Whether the desktop is the one that the companion is made for, by the path
/// that it names.
pub fn detected_from(omarchy_path: Option<&str>) -> (r: bool)
    ensures
        r == (omarchy_path is Some && without_slashes(trim(omarchy_path->0@))
            == "/usr/share/omarchy"@),
{
    match omarchy_path {
        Some(path) => {
            let bare = trimmed(path);
            let chars = crate::text::chars_of(bare.as_str());
            let mut end: usize = chars.len();
            assert(chars@.take(end as int) == chars@);
            while end > 0 && chars[end - 1] == '/'
                invariant
                    end <= chars@.len(),
                    without_slashes(chars@) == without_slashes(chars@.take(end as int)),
                decreases end,
            {
                assert(chars@.take(end as int).last() == chars@[end - 1]);
                assert(chars@.take(end as int).drop_last() == chars@.take(end - 1));
                end -= 1;
            }
            assert(end > 0 ==> chars@.take(end as int).last() == chars@[end - 1]);
            assert(chars@.take(end as int) == chars@.subrange(0, end as int));
            let kept = crate::text::string_of(&chars, 0, end);
            same(kept.as_str(), "/usr/share/omarchy")
        },
        None => false,
    }
}

/// The command that adds the companion, where it is published at `repository`.
pub fn install_command(repository: Option<&str>) -> (r: Option<String>)
    ensures
        view_of(r) == match repository {
            Some(address) => Some("omarchy plugin add "@ + address@ + " --enable"@),
            None => None,
        },
{
    match repository {
        Some(address) => {
            let mut out = "omarchy plugin add ".to_owned();
            out.append(address);
            out.append(" --enable");
            Some(out)
        },
        None => None,
    }
}

} // verus!
