//! The `jj` and `git` command lines that the tool runs, and the reading of
//! what `jj` prints.
use vstd::prelude::*;
use crate::error::JcError;
use crate::text::{
    append_str, chars_of, contains, contains_chars, ends_with, find, find_from, lines, lines_str,
    split_once, split_once_chars, starts_with, starts_with_chars, string_of, strip_prefix,
    strip_prefix_chars, strip_suffix, strip_suffix_chars, sub_vec, trim, trim_chars, views,
};

verus! {

/// The character sequences of a vector of strings.
pub open spec fn strs(v: Seq<String>) -> Seq<Seq<char>> {
    v.map_values(|s: String| s@)
}

/// `strs` distributes over `push`.
pub proof fn lemma_strs_push(v: Seq<String>, s: String)
    ensures
        strs(v.push(s)) == strs(v).push(s@),
{
    assert(strs(v.push(s)) =~= strs(v).push(s@));
}

/// Appends a copy of `s` to an argument list.
pub fn push_arg(v: &mut Vec<String>, s: &str)
    ensures
        strs(final(v)@) == strs(old(v)@).push(s@),
{
    let a = s.to_owned();
    proof { lemma_strs_push(v@, a); }
    v.push(a);
}

/// A process to run: the program and its arguments.
pub struct Invocation {
    pub program: String,
    pub args: Vec<String>,
}

impl Invocation {
    /// The arguments as character sequences.
    pub open spec fn argv(&self) -> Seq<Seq<char>> {
        strs(self.args@)
    }
}

/// The revset of the mutable stack through `revision`: its mutable ancestors
/// and descendants.
pub open spec fn stack_revset_spec(revision: Seq<char>) -> Seq<char> {
    "(::"@ + revision + " | "@ + revision + "::) & mutable()"@
}

/// The template that prints one JSON object per commit, one per line.
pub open spec fn json_lines_template() -> Seq<char> {
    "json(self) ++ \"\\n\""@
}

/// The template that prints each bookmark as `name<TAB>change_id`.
pub open spec fn bookmark_template() -> Seq<char> {
    "name ++ \"\\t\" ++ self.normal_target().change_id() ++ \"\\n\""@
}

/// A client for one repository: builds the `jj` command lines that run
/// against it.
pub struct Jj {
    repo_root: String,
}

impl Jj {
    /// The repository's root directory.
    pub closed spec fn root(&self) -> Seq<char> {
        self.repo_root@
    }

    /// The arguments that every repository command starts with.
    pub open spec fn base(&self) -> Seq<Seq<char>> {
        seq!["-R"@, self.root(), "--ignore-working-copy"@]
    }

    /// The arguments that commands which touch the working copy start with.
    pub open spec fn base_wc(&self) -> Seq<Seq<char>> {
        seq!["-R"@, self.root()]
    }

    /// A client for the repository at `repo_root`.
    pub fn new(repo_root: String) -> (jj: Jj)
        ensures
            jj.root() == repo_root@,
    {
        Jj { repo_root }
    }

    /// The repository's root directory.
    pub fn repo_root(&self) -> (r: &str)
        ensures
            r@ == self.root(),
    {
        self.repo_root.as_str()
    }

    fn cmd(&self) -> (inv: Invocation)
        ensures
            inv.program@ == "jj"@,
            inv.argv() == self.base(),
    {
        let mut args: Vec<String> = Vec::new();
        push_arg(&mut args, "-R");
        push_arg(&mut args, self.repo_root.as_str());
        push_arg(&mut args, "--ignore-working-copy");
        assert(strs(args@) =~= self.base());
        Invocation { program: "jj".to_owned(), args }
    }

    fn cmd_wc(&self) -> (inv: Invocation)
        ensures
            inv.program@ == "jj"@,
            inv.argv() == self.base_wc(),
    {
        let mut args: Vec<String> = Vec::new();
        push_arg(&mut args, "-R");
        push_arg(&mut args, self.repo_root.as_str());
        assert(strs(args@) =~= self.base_wc());
        Invocation { program: "jj".to_owned(), args }
    }

    /// `jj config list`.
    pub fn config_list(&self) -> (inv: Invocation)
        ensures
            inv.program@ == "jj"@,
            inv.argv() == self.base() + seq!["config"@, "list"@],
    {
        let mut inv = self.cmd();
        push_arg(&mut inv.args, "config");
        push_arg(&mut inv.args, "list");
        assert(inv.argv() =~= self.base() + seq!["config"@, "list"@]);
        inv
    }

    /// `jj config set --repo <key> <value>`.
    pub fn config_set(&self, key: &str, value: &str) -> (inv: Invocation)
        ensures
            inv.program@ == "jj"@,
            inv.argv() == self.base() + seq!["config"@, "set"@, "--repo"@, key@, value@],
    {
        let mut inv = self.cmd();
        push_arg(&mut inv.args, "config");
        push_arg(&mut inv.args, "set");
        push_arg(&mut inv.args, "--repo");
        push_arg(&mut inv.args, key);
        push_arg(&mut inv.args, value);
        assert(inv.argv() =~= self.base() + seq!["config"@, "set"@, "--repo"@, key@, value@]);
        inv
    }

    /// `jj config unset --repo <key>`.
    pub fn config_unset(&self, key: &str) -> (inv: Invocation)
        ensures
            inv.program@ == "jj"@,
            inv.argv() == self.base() + seq!["config"@, "unset"@, "--repo"@, key@],
    {
        let mut inv = self.cmd();
        push_arg(&mut inv.args, "config");
        push_arg(&mut inv.args, "unset");
        push_arg(&mut inv.args, "--repo");
        push_arg(&mut inv.args, key);
        assert(inv.argv() =~= self.base() + seq!["config"@, "unset"@, "--repo"@, key@]);
        inv
    }

    /// `jj git remote list`.
    pub fn git_remote_list(&self) -> (inv: Invocation)
        ensures
            inv.program@ == "jj"@,
            inv.argv() == self.base() + seq!["git"@, "remote"@, "list"@],
    {
        let mut inv = self.cmd();
        push_arg(&mut inv.args, "git");
        push_arg(&mut inv.args, "remote");
        push_arg(&mut inv.args, "list");
        assert(inv.argv() =~= self.base() + seq!["git"@, "remote"@, "list"@]);
        inv
    }

    /// `jj log -r <revset> --no-graph --template <template>`.
    pub fn log(&self, revset: &str, template: &str) -> (inv: Invocation)
        ensures
            inv.program@ == "jj"@,
            inv.argv() == self.base() + seq![
                "log"@,
                "-r"@,
                revset@,
                "--no-graph"@,
                "--template"@,
                template@,
            ],
    {
        let mut inv = self.cmd();
        push_arg(&mut inv.args, "log");
        push_arg(&mut inv.args, "-r");
        push_arg(&mut inv.args, revset);
        push_arg(&mut inv.args, "--no-graph");
        push_arg(&mut inv.args, "--template");
        push_arg(&mut inv.args, template);
        assert(inv.argv() =~= self.base() + seq![
            "log"@,
            "-r"@,
            revset@,
            "--no-graph"@,
            "--template"@,
            template@,
        ]);
        inv
    }

    /// `jj log` as above, oldest commit first.
    pub fn log_reversed(&self, revset: &str, template: &str) -> (inv: Invocation)
        ensures
            inv.program@ == "jj"@,
            inv.argv() == self.base() + seq![
                "log"@,
                "-r"@,
                revset@,
                "--no-graph"@,
                "--template"@,
                template@,
                "--reversed"@,
            ],
    {
        let mut inv = self.log(revset, template);
        push_arg(&mut inv.args, "--reversed");
        assert(inv.argv() =~= self.base() + seq![
            "log"@,
            "-r"@,
            revset@,
            "--no-graph"@,
            "--template"@,
            template@,
            "--reversed"@,
        ]);
        inv
    }

    /// `jj bookmark set <name> -r <revision>`.
    pub fn bookmark_set(&self, name: &str, revision: &str) -> (inv: Invocation)
        ensures
            inv.program@ == "jj"@,
            inv.argv() == self.base() + seq!["bookmark"@, "set"@, name@, "-r"@, revision@],
    {
        let mut inv = self.cmd();
        push_arg(&mut inv.args, "bookmark");
        push_arg(&mut inv.args, "set");
        push_arg(&mut inv.args, name);
        push_arg(&mut inv.args, "-r");
        push_arg(&mut inv.args, revision);
        assert(inv.argv() =~= self.base() + seq!["bookmark"@, "set"@, name@, "-r"@, revision@]);
        inv
    }

    /// `jj describe -r <change_id> -m <message>`.
    pub fn describe(&self, change_id: &str, message: &str) -> (inv: Invocation)
        ensures
            inv.program@ == "jj"@,
            inv.argv() == self.base() + seq!["describe"@, "-r"@, change_id@, "-m"@, message@],
    {
        let mut inv = self.cmd();
        push_arg(&mut inv.args, "describe");
        push_arg(&mut inv.args, "-r");
        push_arg(&mut inv.args, change_id);
        push_arg(&mut inv.args, "-m");
        push_arg(&mut inv.args, message);
        assert(inv.argv() =~= self.base() + seq!["describe"@, "-r"@, change_id@, "-m"@, message@]);
        inv
    }

    /// The `jj log` that lists the mutable stack through `revision`, oldest
    /// first, one JSON object per line.
    pub fn get_stack(&self, revision: &str) -> (inv: Invocation)
        ensures
            inv.program@ == "jj"@,
            inv.argv() == self.base() + seq![
                "log"@,
                "-r"@,
                stack_revset_spec(revision@),
                "--no-graph"@,
                "--template"@,
                json_lines_template(),
                "--reversed"@,
            ],
    {
        let revset = stack_revset(revision);
        self.log_reversed(revset.as_str(), "json(self) ++ \"\\n\"")
    }

    /// `jj bookmark track <name> --remote <remote>`.
    pub fn bookmark_track(&self, name: &str, remote: &str) -> (inv: Invocation)
        ensures
            inv.program@ == "jj"@,
            inv.argv() == self.base() + seq!["bookmark"@, "track"@, name@, "--remote"@, remote@],
    {
        let mut inv = self.cmd();
        push_arg(&mut inv.args, "bookmark");
        push_arg(&mut inv.args, "track");
        push_arg(&mut inv.args, name);
        push_arg(&mut inv.args, "--remote");
        push_arg(&mut inv.args, remote);
        assert(inv.argv() =~= self.base() + seq!["bookmark"@, "track"@, name@, "--remote"@, remote@]);
        inv
    }

    /// `jj abandon -r <id> -r <id> ...`; nothing to run when there is no id.
    pub fn abandon(&self, change_ids: &Vec<String>) -> (r: Option<Invocation>)
        ensures
            change_ids@.len() == 0 ==> r is None,
            change_ids@.len() > 0 ==> r is Some && r->0.program@ == "jj"@
                && r->0.argv() == self.base() + seq!["abandon"@] + repeat_flag(
                "-r"@,
                strs(change_ids@),
            ),
    {
        if change_ids.len() == 0 {
            return None;
        }
        let mut inv = self.cmd();
        push_arg(&mut inv.args, "abandon");
        let ghost head = inv.argv();
        let mut i: usize = 0;
        while i < change_ids.len()
            invariant
                i <= change_ids.len(),
                inv.program@ == "jj"@,
                inv.argv() == head + repeat_flag("-r"@, strs(change_ids@).take(i as int)),
            decreases change_ids.len() - i,
        {
            push_arg(&mut inv.args, "-r");
            push_arg(&mut inv.args, change_ids[i].as_str());
            proof {
                lemma_repeat_flag_push("-r"@, strs(change_ids@).take(i as int), change_ids@[i as int]@);
                assert(strs(change_ids@).take(i + 1) == strs(change_ids@).take(i as int).push(change_ids@[i as int]@));
            }
            i = i + 1;
        }
        assert(strs(change_ids@).take(change_ids.len() as int) == strs(change_ids@));
        Some(inv)
    }

    /// `jj git push --remote <remote> --bookmark <bookmark>`.
    pub fn git_push(&self, remote: &str, bookmark: &str) -> (inv: Invocation)
        ensures
            inv.program@ == "jj"@,
            inv.argv() == self.base() + seq!["git"@, "push"@, "--remote"@, remote@, "--bookmark"@, bookmark@],
    {
        let mut inv = self.cmd();
        push_arg(&mut inv.args, "git");
        push_arg(&mut inv.args, "push");
        push_arg(&mut inv.args, "--remote");
        push_arg(&mut inv.args, remote);
        push_arg(&mut inv.args, "--bookmark");
        push_arg(&mut inv.args, bookmark);
        assert(inv.argv() =~= self.base() + seq!["git"@, "push"@, "--remote"@, remote@, "--bookmark"@, bookmark@]);
        inv
    }

    /// `git -C <root> fetch --no-tags <url> <refspec>`: fetches a refspec
    /// from a remote URL, which `jj git fetch` cannot.
    pub fn git_fetch_refspec(&self, remote_url: &str, refspec: &str) -> (inv: Invocation)
        ensures
            inv.program@ == "git"@,
            inv.argv() == seq!["-C"@, self.root(), "fetch"@, "--no-tags"@, remote_url@, refspec@],
    {
        let mut args: Vec<String> = Vec::new();
        push_arg(&mut args, "-C");
        push_arg(&mut args, self.repo_root.as_str());
        push_arg(&mut args, "fetch");
        push_arg(&mut args, "--no-tags");
        push_arg(&mut args, remote_url);
        push_arg(&mut args, refspec);
        assert(strs(args@) =~= seq!["-C"@, self.root(), "fetch"@, "--no-tags"@, remote_url@, refspec@]);
        Invocation { program: "git".to_owned(), args }
    }

    /// `jj git import`.
    pub fn git_import(&self) -> (inv: Invocation)
        ensures
            inv.program@ == "jj"@,
            inv.argv() == self.base() + seq!["git"@, "import"@],
    {
        let mut inv = self.cmd();
        push_arg(&mut inv.args, "git");
        push_arg(&mut inv.args, "import");
        assert(inv.argv() =~= self.base() + seq!["git"@, "import"@]);
        inv
    }

    /// `jj new <revision>`, which moves the working copy.
    pub fn new_commit(&self, revision: &str) -> (inv: Invocation)
        ensures
            inv.program@ == "jj"@,
            inv.argv() == self.base_wc() + seq!["new"@, revision@],
    {
        let mut inv = self.cmd_wc();
        push_arg(&mut inv.args, "new");
        push_arg(&mut inv.args, revision);
        assert(inv.argv() =~= self.base_wc() + seq!["new"@, revision@]);
        inv
    }

    /// `jj rebase -b <branch> -d <destination>`, which may move the working
    /// copy.
    pub fn rebase(&self, branch: &str, destination: &str) -> (inv: Invocation)
        ensures
            inv.program@ == "jj"@,
            inv.argv() == self.base_wc() + seq!["rebase"@, "-b"@, branch@, "-d"@, destination@],
    {
        let mut inv = self.cmd_wc();
        push_arg(&mut inv.args, "rebase");
        push_arg(&mut inv.args, "-b");
        push_arg(&mut inv.args, branch);
        push_arg(&mut inv.args, "-d");
        push_arg(&mut inv.args, destination);
        assert(inv.argv() =~= self.base_wc() + seq!["rebase"@, "-b"@, branch@, "-d"@, destination@]);
        inv
    }

    /// `jj bookmark list --template <name TAB change_id> [filter]`.
    pub fn bookmark_list(&self, filter: Option<&str>) -> (inv: Invocation)
        ensures
            inv.program@ == "jj"@,
            inv.argv() == self.base() + seq!["bookmark"@, "list"@, "--template"@, bookmark_template()] + match filter {
                Some(f) => seq![f@],
                None => Seq::empty(),
            },
    {
        let mut inv = self.cmd();
        push_arg(&mut inv.args, "bookmark");
        push_arg(&mut inv.args, "list");
        push_arg(&mut inv.args, "--template");
        push_arg(&mut inv.args, "name ++ \"\\t\" ++ self.normal_target().change_id() ++ \"\\n\"");
        match filter {
            Some(f) => {
                push_arg(&mut inv.args, f);
                assert(inv.argv() =~= self.base() + seq!["bookmark"@, "list"@, "--template"@, bookmark_template()] + seq![f@]);
            },
            None => {
                assert(inv.argv() =~= self.base() + seq!["bookmark"@, "list"@, "--template"@, bookmark_template()] + Seq::<Seq<char>>::empty());
            },
        }
        inv
    }

    /// `jj bookmark delete <name>`.
    pub fn bookmark_delete(&self, name: &str) -> (inv: Invocation)
        ensures
            inv.program@ == "jj"@,
            inv.argv() == self.base() + seq!["bookmark"@, "delete"@, name@],
    {
        let mut inv = self.cmd();
        push_arg(&mut inv.args, "bookmark");
        push_arg(&mut inv.args, "delete");
        push_arg(&mut inv.args, name);
        assert(inv.argv() =~= self.base() + seq!["bookmark"@, "delete"@, name@]);
        inv
    }

    /// `jj git push --remote <remote> --bookmark <b> ...` for several
    /// bookmarks in one network operation; nothing to run when there is none.
    pub fn git_push_bookmarks(&self, remote: &str, bookmarks: &Vec<String>) -> (r: Option<Invocation>)
        ensures
            bookmarks@.len() == 0 ==> r is None,
            bookmarks@.len() > 0 ==> r is Some && r->0.program@ == "jj"@
                && r->0.argv() == self.base() + seq!["git"@, "push"@, "--remote"@, remote@] + repeat_flag(
                "--bookmark"@,
                strs(bookmarks@),
            ),
    {
        if bookmarks.len() == 0 {
            return None;
        }
        let mut inv = self.cmd();
        push_arg(&mut inv.args, "git");
        push_arg(&mut inv.args, "push");
        push_arg(&mut inv.args, "--remote");
        push_arg(&mut inv.args, remote);
        assert(inv.argv() =~= self.base() + seq!["git"@, "push"@, "--remote"@, remote@]);
        let ghost head = inv.argv();
        let mut i: usize = 0;
        while i < bookmarks.len()
            invariant
                i <= bookmarks.len(),
                inv.program@ == "jj"@,
                inv.argv() == head + repeat_flag("--bookmark"@, strs(bookmarks@).take(i as int)),
            decreases bookmarks.len() - i,
        {
            push_arg(&mut inv.args, "--bookmark");
            push_arg(&mut inv.args, bookmarks[i].as_str());
            proof {
                lemma_repeat_flag_push("--bookmark"@, strs(bookmarks@).take(i as int), bookmarks@[i as int]@);
                assert(strs(bookmarks@).take(i + 1) == strs(bookmarks@).take(i as int).push(bookmarks@[i as int]@));
            }
            i = i + 1;
        }
        assert(strs(bookmarks@).take(bookmarks.len() as int) == strs(bookmarks@));
        Some(inv)
    }
}

/// `flag v1 flag v2 ...`: each value preceded by the flag.
pub open spec fn repeat_flag(flag: Seq<char>, values: Seq<Seq<char>>) -> Seq<Seq<char>>
    decreases values.len(),
{
    if values.len() == 0 {
        Seq::empty()
    } else {
        repeat_flag(flag, values.drop_last()) + seq![flag, values.last()]
    }
}

proof fn lemma_repeat_flag_push(flag: Seq<char>, values: Seq<Seq<char>>, v: Seq<char>)
    ensures
        repeat_flag(flag, values.push(v)) == repeat_flag(flag, values) + seq![flag, v],
{
    assert(values.push(v).drop_last() == values);
}

/// The revset of the mutable stack through `revision`.
pub fn stack_revset(revision: &str) -> (r: String)
    ensures
        r@ == stack_revset_spec(revision@),
{
    let mut v: Vec<char> = Vec::new();
    append_str(&mut v, "(::");
    append_str(&mut v, revision);
    append_str(&mut v, " | ");
    append_str(&mut v, revision);
    append_str(&mut v, "::) & mutable()");
    string_of(v.as_slice())
}

/// The character sequences of a vector of string pairs.
pub open spec fn pairs(v: Seq<(String, String)>) -> Seq<(Seq<char>, Seq<char>)> {
    v.map_values(|p: (String, String)| (p.0@, p.1@))
}

/// `pairs` distributes over `push`.
pub proof fn lemma_pairs_push(v: Seq<(String, String)>, p: (String, String))
    ensures
        pairs(v.push(p)) == pairs(v).push((p.0@, p.1@)),
{
    assert(pairs(v.push(p)) =~= pairs(v).push((p.0@, p.1@)));
}

/// The character sequence of an optional string.
pub open spec fn opt_str(o: Option<&str>) -> Option<Seq<char>> {
    match o {
        Some(s) => Some(s@),
        None => None,
    }
}

/// A value without one pair of surrounding double quotes, if it has them.
pub open spec fn unquote(v: Seq<char>) -> Seq<char> {
    if v.len() >= 2 && v[0] == '"' && v.last() == '"' {
        v.subrange(1, v.len() - 1)
    } else {
        v
    }
}

/// One line of `jj config list`, read as `key = value`: both sides trimmed,
/// the value unquoted; `None` for a line without `=` or, when a prefix is
/// given, for a key that does not start with it.
pub open spec fn config_entry(line: Seq<char>, prefix: Option<Seq<char>>) -> Option<(Seq<char>, Seq<char>)> {
    match split_once(line, '=') {
        None => None,
        Some((k, v)) => {
            if prefix matches Some(p) && !starts_with(trim(k), p) {
                None
            } else {
                Some((trim(k), unquote(trim(v))))
            }
        },
    }
}

/// The entries that the lines `ls` of `jj config list` hold, in order.
pub open spec fn config_entries(ls: Seq<Seq<char>>, prefix: Option<Seq<char>>) -> Seq<(Seq<char>, Seq<char>)>
    decreases ls.len(),
{
    if ls.len() == 0 {
        Seq::empty()
    } else {
        config_entries(ls.drop_last(), prefix) + match config_entry(ls.last(), prefix) {
            Some(e) => seq![e],
            None => Seq::empty(),
        }
    }
}

/// Reads `jj config list` output into `(key, value)` pairs with surrounding
/// double quotes stripped; lines without `=` are skipped, and with a prefix
/// only keys that start with it are kept.
pub fn config_list_parsed(stdout: &str, prefix: Option<&str>) -> (out: Vec<(String, String)>)
    ensures
        pairs(out@) == config_entries(lines(stdout@), opt_str(prefix)),
{
    let ls = lines_str(stdout);
    let pre: Option<Vec<char>> = match prefix {
        Some(p) => Some(chars_of(p)),
        None => None,
    };
    let mut out: Vec<(String, String)> = Vec::new();
    let mut i: usize = 0;
    while i < ls.len()
        invariant
            i <= ls.len(),
            views(ls@) == lines(stdout@),
            pre is Some == prefix is Some,
            pre matches Some(pv) ==> pv@ == prefix->0@,
            pairs(out@) == config_entries(views(ls@).take(i as int), opt_str(prefix)),
        decreases ls.len() - i,
    {
        let ghost before = out@;
        let line = &ls[i];
        assert(views(ls@).take(i + 1).drop_last() == views(ls@).take(i as int));
        assert(views(ls@).take(i + 1).last() == line@);
        match split_once_chars(line.as_slice(), '=') {
            None => {
                assert(pairs(out@) =~= config_entries(views(ls@).take(i + 1), opt_str(prefix)));
            },
            Some((k, v)) => {
                let key = trim_chars(k.as_slice());
                let keep = match &pre {
                    Some(pv) => starts_with_chars(key.as_slice(), pv.as_slice()),
                    None => true,
                };
                if keep {
                    let val = trim_chars(v.as_slice());
                    let uq = if val.len() >= 2 && val[0] == '"' && val[val.len() - 1] == '"' {
                        sub_vec(val.as_slice(), 1, val.len() - 1)
                    } else {
                        val
                    };
                    let e = (string_of(key.as_slice()), string_of(uq.as_slice()));
                    proof { lemma_pairs_push(out@, e); }
                    out.push(e);
                    assert(pairs(out@) =~= config_entries(views(ls@).take(i + 1), opt_str(prefix)));
                } else {
                    assert(pairs(out@) =~= config_entries(views(ls@).take(i + 1), opt_str(prefix)));
                }
            },
        }
        i = i + 1;
    }
    assert(views(ls@).take(ls.len() as int) == views(ls@));
    out
}

/// One line of the bookmark listing, read as `name<TAB>change_id`.
pub open spec fn bookmark_entries(ls: Seq<Seq<char>>) -> Seq<(Seq<char>, Seq<char>)>
    decreases ls.len(),
{
    if ls.len() == 0 {
        Seq::empty()
    } else {
        bookmark_entries(ls.drop_last()) + match split_once(ls.last(), '\t') {
            Some(e) => seq![e],
            None => Seq::empty(),
        }
    }
}

/// Reads the bookmark listing into `(name, change_id)` pairs; lines without
/// a tab are skipped.
pub fn bookmark_list_parsed(stdout: &str) -> (out: Vec<(String, String)>)
    ensures
        pairs(out@) == bookmark_entries(lines(stdout@)),
{
    let ls = lines_str(stdout);
    let mut out: Vec<(String, String)> = Vec::new();
    let mut i: usize = 0;
    while i < ls.len()
        invariant
            i <= ls.len(),
            views(ls@) == lines(stdout@),
            pairs(out@) == bookmark_entries(views(ls@).take(i as int)),
        decreases ls.len() - i,
    {
        let line = &ls[i];
        assert(views(ls@).take(i + 1).drop_last() == views(ls@).take(i as int));
        assert(views(ls@).take(i + 1).last() == line@);
        match split_once_chars(line.as_slice(), '\t') {
            None => {
                assert(pairs(out@) =~= bookmark_entries(views(ls@).take(i + 1)));
            },
            Some((n, c)) => {
                let e = (string_of(n.as_slice()), string_of(c.as_slice()));
                proof { lemma_pairs_push(out@, e); }
                out.push(e);
                assert(pairs(out@) =~= bookmark_entries(views(ls@).take(i + 1)));
            },
        }
        i = i + 1;
    }
    assert(views(ls@).take(ls.len() as int) == views(ls@));
    out
}

/// The non-empty lines of `ls`, in order.
pub open spec fn nonempty_lines(ls: Seq<Seq<char>>) -> Seq<Seq<char>>
    decreases ls.len(),
{
    if ls.len() == 0 {
        Seq::empty()
    } else {
        nonempty_lines(ls.drop_last()) + if ls.last().len() > 0 {
            seq![ls.last()]
        } else {
            Seq::empty()
        }
    }
}

/// The non-empty lines of `stdout`: the JSON objects that the stack listing
/// printed, one per commit.
pub fn stack_lines(stdout: &str) -> (out: Vec<String>)
    ensures
        strs(out@) == nonempty_lines(lines(stdout@)),
{
    let ls = lines_str(stdout);
    let mut out: Vec<String> = Vec::new();
    let mut i: usize = 0;
    while i < ls.len()
        invariant
            i <= ls.len(),
            views(ls@) == lines(stdout@),
            strs(out@) == nonempty_lines(views(ls@).take(i as int)),
        decreases ls.len() - i,
    {
        let line = &ls[i];
        assert(views(ls@).take(i + 1).drop_last() == views(ls@).take(i as int));
        assert(views(ls@).take(i + 1).last() == line@);
        if line.len() > 0 {
            let s = string_of(line.as_slice());
            proof { lemma_strs_push(out@, s); }
            out.push(s);
        }
        assert(strs(out@) =~= nonempty_lines(views(ls@).take(i + 1)));
        i = i + 1;
    }
    assert(views(ls@).take(ls.len() as int) == views(ls@));
    out
}

/// The name of the first remote in `ls[i..]` (lines `name url`) whose URL
/// contains `repo`.
pub open spec fn remote_for_repo(ls: Seq<Seq<char>>, repo: Seq<char>, i: int) -> Option<Seq<char>>
    decreases ls.len() - i,
{
    if i < 0 || i >= ls.len() {
        None
    } else {
        match split_once(ls[i], ' ') {
            Some((name, url)) => {
                if contains(url, repo) {
                    Some(name)
                } else {
                    remote_for_repo(ls, repo, i + 1)
                }
            },
            None => remote_for_repo(ls, repo, i + 1),
        }
    }
}

/// Finds, in `jj git remote list` output, the remote whose URL mentions
/// `upstream_repo`.
pub fn find_upstream_remote(remote_list: &str, upstream_repo: &str) -> (r: Result<String, JcError>)
    ensures
        match remote_for_repo(lines(remote_list@), upstream_repo@, 0) {
            Some(name) => r is Ok && r->Ok_0@ == name,
            None => r is Err && (r->Err_0 matches JcError::UpstreamRemoteNotFound { upstream_repo: u }
                && u@ == upstream_repo@),
        },
{
    let ls = lines_str(remote_list);
    let repo = chars_of(upstream_repo);
    let mut i: usize = 0;
    while i < ls.len()
        invariant
            i <= ls.len(),
            views(ls@) == lines(remote_list@),
            repo@ == upstream_repo@,
            remote_for_repo(views(ls@), repo@, 0) == remote_for_repo(views(ls@), repo@, i as int),
        decreases ls.len() - i,
    {
        assert(views(ls@)[i as int] == ls@[i as int]@);
        match split_once_chars(ls[i].as_slice(), ' ') {
            Some((name, url)) => {
                if contains_chars(url.as_slice(), repo.as_slice()) {
                    return Ok(string_of(name.as_slice()));
                }
            },
            None => {},
        }
        i = i + 1;
    }
    Err(JcError::UpstreamRemoteNotFound { upstream_repo: upstream_repo.to_owned() })
}

/// `s` without all trailing `'/'`.
pub open spec fn trim_end_slashes(s: Seq<char>) -> Seq<char>
    decreases s.len(),
{
    if s.len() > 0 && s.last() == '/' {
        trim_end_slashes(s.drop_last())
    } else {
        s
    }
}

/// `s` is `owner/repo`: exactly one `'/'`, with text on both sides.
pub open spec fn is_owner_repo(s: Seq<char>) -> bool {
    let k = find(s, '/');
    0 < k && k < s.len() - 1 && find_from(s, '/', k + 1) == -1
}

/// The path of a GitHub remote URL: what follows `https://github.com/`,
/// `ssh://git@github.com/` or `git@github.com:`.
pub open spec fn github_path(url: Seq<char>) -> Option<Seq<char>> {
    if starts_with(url, "https://github.com/"@) {
        strip_prefix(url, "https://github.com/"@)
    } else if starts_with(url, "ssh://git@github.com/"@) {
        strip_prefix(url, "ssh://git@github.com/"@)
    } else {
        strip_prefix(url, "git@github.com:"@)
    }
}

/// The `owner/repo` that a GitHub remote URL names: its path without one
/// `.git` suffix and without trailing slashes, if that is `owner/repo`.
pub open spec fn github_owner_repo(url: Seq<char>) -> Option<Seq<char>> {
    match github_path(url) {
        None => None,
        Some(path) => {
            let p1 = match strip_suffix(path, ".git"@) {
                Some(q) => q,
                None => path,
            };
            let p2 = trim_end_slashes(p1);
            if is_owner_repo(p2) {
                Some(p2)
            } else {
                None
            }
        },
    }
}

/// `s` is `owner/repo`.
pub fn is_owner_repo_exec(s: &[char]) -> (r: bool)
    ensures
        r == is_owner_repo(s@),
{
    match crate::text::find_char_from(s, '/', 0) {
        None => false,
        Some(k) => {
            proof { crate::text::lemma_find_from_bounds(s@, '/', 0); }
            assert(k < s.len());
            if k == 0 || k + 1 >= s.len() {
                return false;
            }
            crate::text::find_char_from(s, '/', k + 1).is_none()
        },
    }
}

/// Extracts `owner/repo` from a GitHub remote URL; `None` for a URL that is
/// not GitHub's or whose path is not `owner/repo`.
pub fn parse_github_owner_repo(url: &str) -> (r: Option<String>)
    ensures
        r is Some == github_owner_repo(url@) is Some,
        r matches Some(s) ==> s@ == github_owner_repo(url@)->0,
{
    let u = chars_of(url);
    let https = chars_of("https://github.com/");
    let ssh = chars_of("ssh://git@github.com/");
    let scp = chars_of("git@github.com:");
    let path = if starts_with_chars(u.as_slice(), https.as_slice()) {
        strip_prefix_chars(u.as_slice(), https.as_slice())
    } else if starts_with_chars(u.as_slice(), ssh.as_slice()) {
        strip_prefix_chars(u.as_slice(), ssh.as_slice())
    } else {
        strip_prefix_chars(u.as_slice(), scp.as_slice())
    };
    let path = match path {
        None => return None,
        Some(p) => p,
    };
    let git = chars_of(".git");
    let p1 = match strip_suffix_chars(path.as_slice(), git.as_slice()) {
        Some(q) => q,
        None => path,
    };
    let mut end: usize = p1.len();
    assert(p1@.take(end as int) == p1@);
    while end > 0 && p1[end - 1] == '/'
        invariant
            end <= p1.len(),
            trim_end_slashes(p1@) == trim_end_slashes(p1@.take(end as int)),
        decreases end,
    {
        assert(p1@.take(end as int).drop_last() == p1@.take(end - 1));
        end = end - 1;
    }
    let p2 = sub_vec(p1.as_slice(), 0, end);
    assert(p2@ == p1@.take(end as int));
    assert(trim_end_slashes(p2@) == p2@);
    if is_owner_repo_exec(p2.as_slice()) {
        Some(string_of(p2.as_slice()))
    } else {
        None
    }
}

/// A line `name url` with a name free of spaces splits at the space after
/// the name; and any line that splits does so into such a name and the rest.
proof fn lemma_split_at_name(s: Seq<char>, name: Seq<char>, url: Seq<char>)
    ensures
        s == name + " "@ + url && !name.contains(' ') ==> split_once(s, ' ') == Some((name, url)),
        split_once(s, ' ') matches Some((n, u)) ==> s == n + " "@ + u && !n.contains(' '),
{
    reveal_strlit(" ");
    crate::text::lemma_find_from_bounds(s, ' ', 0);
    if s == name + " "@ + url && !name.contains(' ') {
        let k = name.len() as int;
        assert(s[k] == ' ');
        assert forall|j: int| 0 <= j < k implies s[j] != ' ' by {
            assert(s[j] == name[j]);
            if name[j] == ' ' {
                assert(name.contains(' '));
            }
        }
        assert(find(s, ' ') == k);
        assert(s.take(k) =~= name);
        assert(s.skip(k + 1) =~= url);
    }
    if let Some((n, u)) = split_once(s, ' ') {
        assert(s =~= n + " "@ + u);
        if n.contains(' ') {
            let j = choose|j: int| 0 <= j < n.len() && n[j] == ' ';
            assert(s[j] == ' ');
        }
    }
}

proof fn lemma_first_matching_remote(ls: Seq<Seq<char>>, repo: Seq<char>, i: int, name: Seq<char>, url: Seq<char>, k: int)
    requires
        0 <= k <= i < ls.len(),
        ls[i] == name + " "@ + url,
        !name.contains(' '),
        contains(url, repo),
        forall|j: int, n: Seq<char>, u: Seq<char>|
            #![trigger ls[j], n + " "@ + u]
            0 <= j < i && ls[j] == n + " "@ + u && !n.contains(' ') ==> !contains(u, repo),
    ensures
        remote_for_repo(ls, repo, k) == Some(name),
    decreases i - k,
{
    if k == i {
        lemma_split_at_name(ls[i], name, url);
    } else {
        lemma_split_at_name(ls[k], name, url);
        if let Some((n, u)) = split_once(ls[k], ' ') {
            assert(ls[k] == n + " "@ + u);
            assert(!contains(u, repo));
        }
        lemma_first_matching_remote(ls, repo, i, name, url, k + 1);
    }
}

/// The remote of the upstream repository is the first listed remote whose
/// URL mentions the repository, whatever form the URL takes: with line `i`
/// of `jj git remote list` reading `name url`, `url` containing the
/// repository, and no earlier line's URL containing it, that remote is
/// `name`.
pub proof fn law_first_remote_mentioning_repo(ls: Seq<Seq<char>>, repo: Seq<char>, i: int, name: Seq<char>, url: Seq<char>)
    requires
        0 <= i < ls.len(),
        ls[i] == name + " "@ + url,
        !name.contains(' '),
        contains(url, repo),
        forall|j: int, n: Seq<char>, u: Seq<char>|
            #![trigger ls[j], n + " "@ + u]
            0 <= j < i && ls[j] == n + " "@ + u && !n.contains(' ') ==> !contains(u, repo),
    ensures
        remote_for_repo(ls, repo, 0) == Some(name),
{
    lemma_first_matching_remote(ls, repo, i, name, url, 0);
}

/// A URL in none of the three GitHub forms names no repository.
pub proof fn law_non_github_url_names_nothing(url: Seq<char>)
    requires
        !starts_with(url, "https://github.com/"@),
        !starts_with(url, "ssh://git@github.com/"@),
        !starts_with(url, "git@github.com:"@),
    ensures
        github_owner_repo(url) is None,
{
}

/// The HTTPS, `ssh://` and `git@` forms of a GitHub remote URL name the
/// same repository when they carry the same path.
pub proof fn law_url_forms_agree(path: Seq<char>)
    ensures
        github_owner_repo("https://github.com/"@ + path) == github_owner_repo("git@github.com:"@ + path),
        github_owner_repo("ssh://git@github.com/"@ + path) == github_owner_repo("git@github.com:"@ + path),
{
    reveal_strlit("https://github.com/");
    reveal_strlit("ssh://git@github.com/");
    reveal_strlit("git@github.com:");
    let h = "https://github.com/"@;
    let s = "ssh://git@github.com/"@;
    let g = "git@github.com:"@;
    assert((h + path).take(h.len() as int) =~= h);
    assert((h + path).skip(h.len() as int) =~= path);
    assert((s + path).take(s.len() as int) =~= s);
    assert((s + path).skip(s.len() as int) =~= path);
    assert((g + path).take(g.len() as int) =~= g);
    assert((g + path).skip(g.len() as int) =~= path);
    assert((s + path)[0] == 's');
    assert((g + path)[0] == 'g');
    assert(!starts_with(s + path, h)) by {
        if starts_with(s + path, h) {
            assert((s + path).take(h.len() as int)[0] == h[0]);
        }
    }
    assert(!starts_with(g + path, h)) by {
        if starts_with(g + path, h) {
            assert((g + path).take(h.len() as int)[0] == h[0]);
        }
    }
    assert(!starts_with(g + path, s)) by {
        if starts_with(g + path, s) {
            assert((g + path).take(s.len() as int)[0] == s[0]);
        }
    }
}

/// Extending a URL by `.git` keeps whether it starts with a GitHub prefix:
/// every prefix ends in `/` or `:`, which `.git` does not hold.
proof fn lemma_git_suffix_keeps_prefix(url: Seq<char>, p: Seq<char>)
    requires
        p.len() > 0,
        p.last() == '/' || p.last() == ':',
    ensures
        starts_with(url + ".git"@, p) == starts_with(url, p),
        starts_with(url, p) ==> (url + ".git"@).skip(p.len() as int) == url.skip(p.len() as int) + ".git"@,
{
    reveal_strlit(".git");
    let u = url + ".git"@;
    if starts_with(url, p) {
        assert(u.take(p.len() as int) =~= url.take(p.len() as int));
        assert(u.skip(p.len() as int) =~= url.skip(p.len() as int) + ".git"@);
    } else if starts_with(u, p) {
        if p.len() <= url.len() {
            assert(url.take(p.len() as int) =~= u.take(p.len() as int));
        } else {
            let k = p.len() - 1;
            assert(u.take(p.len() as int)[k] == p[k]);
            assert(u[k] == ".git"@[k - url.len()]);
        }
    }
}

/// A `.git` suffix does not change the repository a URL names (for a URL
/// that does not already end in `.git`).
pub proof fn law_git_suffix_is_optional(url: Seq<char>)
    requires
        !ends_with(url, ".git"@),
    ensures
        github_owner_repo(url + ".git"@) == github_owner_repo(url),
{
    reveal_strlit("https://github.com/");
    reveal_strlit("ssh://git@github.com/");
    reveal_strlit("git@github.com:");
    reveal_strlit(".git");
    let h = "https://github.com/"@;
    let s = "ssh://git@github.com/"@;
    let g = "git@github.com:"@;
    lemma_git_suffix_keeps_prefix(url, h);
    lemma_git_suffix_keeps_prefix(url, s);
    lemma_git_suffix_keeps_prefix(url, g);
    let u = url + ".git"@;
    match github_path(url) {
        None => {},
        Some(path) => {
            let ext = path + ".git"@;
            assert(github_path(u) == Some(ext));
            assert(ext.skip(ext.len() - 4) =~= ".git"@);
            assert(ext.take(ext.len() - 4) =~= path);
            assert(strip_suffix(ext, ".git"@) == Some(path));
            // The path is a suffix of the URL, so it does not end in `.git` either.
            assert(!ends_with(path, ".git"@)) by {
                if ends_with(path, ".git"@) {
                    let k = url.len() - path.len();
                    assert(path =~= url.skip(k));
                    assert(url.skip(url.len() - 4) =~= path.skip(path.len() - 4));
                }
            }
        },
    }
}

} // verus!
