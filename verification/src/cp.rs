//! `bsdkrun cp`: copy files and directories between the host and a running
//! machine, in the shape of `docker cp`. Exactly one side carries an `ID:`
//! prefix, and `-` means the host's stdin/stdout. The transfer rides the exec
//! agent: `cat` moves a file and `tar` moves a directory, with the paths
//! handed to the guest shell as positional parameters.

use vstd::prelude::*;

use crate::text::{
    chars_of, ends_with, first_of, has_prefix, has_suffix, i64_chars, owned_views, push_chars,
    push_str, signed_decimal, split_at_char, split_spec, starts_with, str_eq, string_of, sub_chars,
};

verus! {

/// One side of a copy. `-` is the host's stdin or stdout depending on which
/// side of the copy it lands on.
#[derive(Debug, PartialEq, Eq)]
pub enum Endpoint {
    Host(String),
    Stdio,
    Guest { id: String, path: String },
}

/// An endpoint as values.
pub enum EndpointView {
    Host(Seq<char>),
    Stdio,
    Guest { id: Seq<char>, path: Seq<char> },
}

impl View for Endpoint {
    type V = EndpointView;

    open spec fn view(&self) -> EndpointView {
        match self {
            Endpoint::Host(p) => EndpointView::Host(p@),
            Endpoint::Stdio => EndpointView::Stdio,
            Endpoint::Guest { id, path } => EndpointView::Guest { id: id@, path: path@ },
        }
    }
}

/// An argument that opens like a host path: `/`, `./`, `../`, `~`, or
/// exactly `.` or `..`.
pub open spec fn looks_local(a: Seq<char>) -> bool {
    starts_with(a, "/"@) || starts_with(a, "./"@) || starts_with(a, "../"@) || starts_with(a, "~"@)
        || a == "."@ || a == ".."@
}

/// docker's rule for the ambiguity between `ID:/path` and a host path that
/// contains a colon: a host-looking argument is the host's; otherwise a
/// non-empty id without `/` before the first colon, followed by a non-empty
/// path, names a machine.
pub open spec fn parse_endpoint_spec(a: Seq<char>) -> EndpointView {
    if a == "-"@ {
        EndpointView::Stdio
    } else {
        let k = first_of(a, ':');
        let id = a.subrange(0, k as int);
        if !looks_local(a) && k < a.len() && id.len() > 0 && !id.contains('/') && k + 1 < a.len() {
            EndpointView::Guest { id, path: a.subrange(k + 1int, a.len() as int) }
        } else {
            EndpointView::Host(a)
        }
    }
}

fn first_colon(s: &Vec<char>) -> (r: usize)
    ensures
        r == first_of(s@, ':'),
{
    let mut i: usize = 0;
    assert(s@.subrange(0, s@.len() as int) =~= s@);
    while i < s.len()
        invariant
            i <= s.len(),
            first_of(s@, ':') == i + first_of(s@.subrange(i as int, s@.len() as int), ':'),
        decreases s.len() - i,
    {
        if s[i] == ':' {
            return i;
        }
        assert(s@.subrange(i as int, s@.len() as int).drop_first() =~= s@.subrange(i + 1, s@.len() as int));
        i += 1;
    }
    i
}

/// Split an argument into an endpoint.
pub fn parse_endpoint(arg: &str) -> (r: Endpoint)
    ensures
        r@ == parse_endpoint_spec(arg@),
{
    if str_eq(arg, "-") {
        return Endpoint::Stdio;
    }
    let local = has_prefix(arg, "/") || has_prefix(arg, "./") || has_prefix(arg, "../") || has_prefix(arg, "~")
        || str_eq(arg, ".") || str_eq(arg, "..");
    if !local {
        let a = chars_of(arg);
        proof {
            assert(a@.subrange(0, a@.len() as int) =~= a@);
        }
        let k = first_colon(&a);
        if k < a.len() && k > 0 && k + 1 < a.len() {
            let id = sub_chars(&a, 0, k);
            if !crate::text::vec_contains(&id, '/') {
                let path = sub_chars(&a, k + 1, a.len());
                return Endpoint::Guest { id: string_of(id.as_slice()), path: string_of(path.as_slice()) };
            }
        }
    }
    Endpoint::Host(String::from_str(arg))
}

/// Write one file into the guest: `$1` is the destination, `$2` the source
/// basename. A destination ending in `/` or naming a directory takes the file
/// into it; the parent is created either way.
pub const PUT_FILE: &'static str = "\nd=$1\ncase \"$d\" in */) d=$d$2 ;; esac\n[ -d \"$d\" ] && d=$d/$2\nmkdir -p \"$(dirname \"$d\")\" || exit 1\nexec cat > \"$d\"\n";

/// Unpack a tar stream into the guest at `$1`, creating it if needed.
pub const PUT_DIR: &'static str = "\nmkdir -p \"$1\" || exit 1\nexec tar -xf - -C \"$1\"\n";

/// Stream one guest file out.
pub const GET_FILE: &'static str = "\n[ -e \"$1\" ] || { echo \"no such file: $1\" >&2; exit 1; }\n[ -d \"$1\" ] && { echo \"$1 is a directory (use -r)\" >&2; exit 1; }\nexec cat -- \"$1\"\n";

/// Stream a guest directory's contents out as tar.
pub const GET_DIR: &'static str = "\n[ -d \"$1\" ] || { echo \"not a directory: $1\" >&2; exit 1; }\nexec tar -cf - -C \"$1\" .\n";


/// `sh -c SCRIPT sh ARGS...`: the paths travel as positional parameters, so
/// a name with a space, a quote or a `$` in it is data, not syntax.
pub open spec fn sh_spec(script: Seq<char>, args: Seq<Seq<char>>) -> Seq<Seq<char>> {
    seq!["/bin/sh"@, "-c"@, script, "sh"@] + args
}

/// Wrap a script as `sh -c SCRIPT sh ARGS...`.
pub fn sh(script: &str, args: &[String]) -> (r: Vec<String>)
    ensures
        owned_views(r@) == sh_spec(script@, owned_views(args@)),
{
    let mut argv: Vec<String> = Vec::new();
    argv.push(String::from_str("/bin/sh"));
    argv.push(String::from_str("-c"));
    argv.push(String::from_str(script));
    argv.push(String::from_str("sh"));
    let mut i: usize = 0;
    while i < args.len()
        invariant
            i <= args@.len(),
            owned_views(argv@) == sh_spec(script@, owned_views(args@).subrange(0, i as int)),
        decreases args.len() - i,
    {
        let ghost before = owned_views(argv@);
        argv.push(args[i].clone());
        assert(owned_views(argv@) =~= before.push(args@[i as int]@));
        assert(owned_views(args@).subrange(0, i + 1) =~= owned_views(args@).subrange(0, i as int).push(args@[i as int]@));
        i += 1;
        assert(owned_views(argv@) =~= sh_spec(script@, owned_views(args@).subrange(0, i as int)));
    }
    assert(owned_views(args@).subrange(0, i as int) =~= owned_views(args@));
    argv
}

/// The path's components as `Path::components` sees them, without the
/// empty and `.` ones.
pub open spec fn named_components(p: Seq<char>) -> Seq<Seq<char>> {
    split_spec(p, '/').filter(|c: Seq<char>| c.len() > 0 && c != "."@)
}

/// `Path::file_name`, falling back to `file`: the last component, unless
/// there is none or it is `..`.
pub open spec fn basename_spec(p: Seq<char>) -> Seq<char> {
    let c = named_components(p);
    if c.len() == 0 || c.last() == ".."@ {
        "file"@
    } else {
        c.last()
    }
}

/// The file name of a host path, or `file` when it has none.
pub fn basename(p: &str) -> (r: String)
    ensures
        r@ == basename_spec(p@),
{
    let a = chars_of(p);
    let parts = split_at_char(&a, '/');
    let ghost all = parts@.map_values(|l: Vec<char>| l@);
    let ghost pred = |c: Seq<char>| c.len() > 0 && c != "."@;
    let mut i: usize = 0;
    let mut last: Option<usize> = None;
    while i < parts.len()
        invariant
            i <= parts@.len(),
            all == parts@.map_values(|l: Vec<char>| l@),
            all == split_spec(p@, '/'),
            pred == (|c: Seq<char>| c.len() > 0 && c != "."@),
            match last {
                Some(k) => k < i && all.subrange(0, i as int).filter(pred).len() > 0 && all.subrange(
                    0,
                    i as int,
                ).filter(pred).last() == all[k as int],
                None => all.subrange(0, i as int).filter(pred).len() == 0,
            },
        decreases parts.len() - i,
    {
        let s = string_of(parts[i].as_slice());
        let keep = parts[i].len() > 0 && !str_eq(s.as_str(), ".");
        proof {
            let pre = all.subrange(0, i + 1);
            assert(pre.drop_last() =~= all.subrange(0, i as int));
            assert(pre.last() == parts@[i as int]@);
            reveal(Seq::filter);
        }
        if keep {
            last = Some(i);
        }
        i += 1;
    }
    assert(all.subrange(0, i as int) =~= all);
    match last {
        Some(k) => {
            let s = string_of(parts[k].as_slice());
            if str_eq(s.as_str(), "..") {
                String::from_str("file")
            } else {
                s
            }
        },
        None => String::from_str("file"),
    }
}

/// The message for a failed guest copy: a directory copy whose shell could
/// not run `tar` (126/127) is blamed on `tar`; otherwise the path, the exit
/// code and what the guest printed.
pub open spec fn guest_failure_spec(id: Seq<char>, path: Seq<char>, code: i32, stderr: Seq<char>, recursive: bool) -> Seq<char> {
    if recursive && (code == 126 || code == 127) {
        "machine "@ + id
            + " has no usable `tar`, which -r needs to move a directory.\nCopy the files one at a time, or use an image that ships tar."@
    } else if stderr.len() == 0 {
        "copying "@ + path + " in machine "@ + id + " failed (guest exit "@ + signed_decimal(code as int) + ")"@
    } else {
        "copying "@ + path + " in machine "@ + id + " failed (guest exit "@ + signed_decimal(code as int)
            + "): "@ + stderr
    }
}

/// Turn a guest exit code into something that names the likely cause.
pub fn guest_failure(id: &str, path: &str, code: i32, stderr: &str, recursive: bool) -> (r: String)
    ensures
        r@ == guest_failure_spec(id@, path@, code, stderr@, recursive),
{
    let mut v: Vec<char> = Vec::new();
    if recursive && (code == 126 || code == 127) {
        push_str(&mut v, "machine ");
        push_str(&mut v, id);
        push_str(
            &mut v,
            " has no usable `tar`, which -r needs to move a directory.\nCopy the files one at a time, or use an image that ships tar.",
        );
    } else {
        push_str(&mut v, "copying ");
        push_str(&mut v, path);
        push_str(&mut v, " in machine ");
        push_str(&mut v, id);
        push_str(&mut v, " failed (guest exit ");
        let d = i64_chars(code as i64);
        push_chars(&mut v, &d);
        if stderr.unicode_len() > 0 {
            push_str(&mut v, "): ");
            push_str(&mut v, stderr);
        } else {
            push_str(&mut v, ")");
        }
    }
    assert(v@ =~= guest_failure_spec(id@, path@, code, stderr@, recursive));
    string_of(v.as_slice())
}

/// Which way a copy goes, once both arguments are parsed.
#[derive(Debug, PartialEq, Eq)]
pub enum Transfer {
    /// From a machine to the host (a file or stdout).
    Download { id: String, path: String, to: Endpoint },
    /// From the host (a file or stdin) into a machine.
    Upload { from: Endpoint, id: String, path: String },
}

/// The message when both sides name a machine.
pub open spec fn guest_to_guest_msg(src: Seq<char>, dst: Seq<char>) -> Seq<char> {
    "cannot copy from one machine directly to another \u{2014} copy to the host first:\n  bsdkrun cp "@ + src
        + " ./tmpfile && bsdkrun cp ./tmpfile "@ + dst
}

/// The message when neither side names a machine.
pub open spec fn no_guest_msg(src: Seq<char>, dst: Seq<char>) -> Seq<char> {
    "one side must name a machine as ID:PATH \u{2014} neither "@ + src + " nor "@ + dst
        + " does.\n  bsdkrun cp ./main.py web:/app/main.py\n  bsdkrun cp web:/var/log/app.log ./app.log"@
}

/// Decide the direction of `bsdkrun cp SRC DST`: exactly one side must name
/// a machine.
pub fn plan_copy(src: &str, dst: &str) -> (r: Result<Transfer, String>)
    ensures
        match (parse_endpoint_spec(src@), parse_endpoint_spec(dst@)) {
            (EndpointView::Guest { id, path }, EndpointView::Guest { .. }) => r matches Err(m) && m@
                == guest_to_guest_msg(src@, dst@),
            (EndpointView::Guest { id, path }, to) => r matches Ok(Transfer::Download { id: i, path: p, to: t })
                && i@ == id && p@ == path && t@ == to,
            (from, EndpointView::Guest { id, path }) => r matches Ok(Transfer::Upload { from: f, id: i, path: p })
                && i@ == id && p@ == path && f@ == from,
            _ => r matches Err(m) && m@ == no_guest_msg(src@, dst@),
        },
{
    let a = parse_endpoint(src);
    let b = parse_endpoint(dst);
    match (a, b) {
        (Endpoint::Guest { id: _, path: _ }, Endpoint::Guest { id: _, path: _ }) => {
            let mut v: Vec<char> = Vec::new();
            push_str(
                &mut v,
                "cannot copy from one machine directly to another \u{2014} copy to the host first:\n  bsdkrun cp ",
            );
            push_str(&mut v, src);
            push_str(&mut v, " ./tmpfile && bsdkrun cp ./tmpfile ");
            push_str(&mut v, dst);
            assert(v@ =~= guest_to_guest_msg(src@, dst@));
            Err(string_of(v.as_slice()))
        },
        (Endpoint::Guest { id, path }, to) => Ok(Transfer::Download { id, path, to }),
        (from, Endpoint::Guest { id, path }) => Ok(Transfer::Upload { from, id, path }),
        _ => {
            let mut v: Vec<char> = Vec::new();
            push_str(&mut v, "one side must name a machine as ID:PATH \u{2014} neither ");
            push_str(&mut v, src);
            push_str(&mut v, " nor ");
            push_str(&mut v, dst);
            push_str(
                &mut v,
                " does.\n  bsdkrun cp ./main.py web:/app/main.py\n  bsdkrun cp web:/var/log/app.log ./app.log",
            );
            assert(v@ =~= no_guest_msg(src@, dst@));
            Err(string_of(v.as_slice()))
        },
    }
}

/// The guest command for an upload: a file lands through `PUT_FILE` (named
/// `stdin` when it comes from stdin), a directory through `PUT_DIR`. Stdin
/// with `-r`, `-r` on something that is not a directory, and a directory
/// without `-r` are refused. `is_dir` says whether the host path is a
/// directory.
pub open spec fn upload_argv_spec(from: EndpointView, dst: Seq<char>, recursive: bool, is_dir: bool) -> Result<
    Seq<Seq<char>>,
    Seq<char>,
> {
    match from {
        EndpointView::Stdio => if recursive {
            Err("-r needs a directory to read; stdin is a single stream"@)
        } else {
            Ok(sh_spec(PUT_FILE@, seq![dst, "stdin"@]))
        },
        EndpointView::Host(p) => if recursive {
            if !is_dir {
                Err(p + " is not a directory (drop -r to copy a file)"@)
            } else {
                Ok(sh_spec(PUT_DIR@, seq![dst]))
            }
        } else if is_dir {
            Err(p + " is a directory (use -r to copy it)"@)
        } else {
            Ok(sh_spec(PUT_FILE@, seq![dst, basename_spec(p)]))
        },
        EndpointView::Guest { .. } => Err("a machine path cannot be uploaded"@),
    }
}

/// The guest command that receives an upload into `dst`.
pub fn upload_argv(from: &Endpoint, dst: &str, recursive: bool, is_dir: bool) -> (r: Result<Vec<String>, String>)
    ensures
        match (r, upload_argv_spec(from@, dst@, recursive, is_dir)) {
            (Ok(v), Ok(w)) => owned_views(v@) == w,
            (Err(m), Err(w)) => m@ == w,
            _ => false,
        },
{
    match from {
        Endpoint::Stdio => {
            if recursive {
                return Err(String::from_str("-r needs a directory to read; stdin is a single stream"));
            }
            let args: Vec<String> = vec![String::from_str(dst), String::from_str("stdin")];
            assert(owned_views(args@) =~= seq![dst@, "stdin"@]);
            Ok(sh(PUT_FILE, args.as_slice()))
        },
        Endpoint::Host(p) => {
            if recursive {
                if !is_dir {
                    let mut v: Vec<char> = Vec::new();
                    push_str(&mut v, p.as_str());
                    push_str(&mut v, " is not a directory (drop -r to copy a file)");
                    return Err(string_of(v.as_slice()));
                }
                let args: Vec<String> = vec![String::from_str(dst)];
                assert(owned_views(args@) =~= seq![dst@]);
                Ok(sh(PUT_DIR, args.as_slice()))
            } else if is_dir {
                let mut v: Vec<char> = Vec::new();
                push_str(&mut v, p.as_str());
                push_str(&mut v, " is a directory (use -r to copy it)");
                Err(string_of(v.as_slice()))
            } else {
                let args: Vec<String> = vec![String::from_str(dst), basename(p.as_str())];
                assert(owned_views(args@) =~= seq![dst@, basename_spec(p@)]);
                Ok(sh(PUT_FILE, args.as_slice()))
            }
        },
        Endpoint::Guest { .. } => Err(String::from_str("a machine path cannot be uploaded")),
    }
}

/// The guest command for a download: a directory as tar, a file as is.
pub fn download_argv(src: &str, recursive: bool) -> (r: Vec<String>)
    ensures
        owned_views(r@) == sh_spec(
            if recursive {
                GET_DIR@
            } else {
                GET_FILE@
            },
            seq![src@],
        ),
{
    let args: Vec<String> = vec![String::from_str(src)];
    assert(owned_views(args@) =~= seq![src@]);
    sh(
        if recursive {
            GET_DIR
        } else {
            GET_FILE
        },
        args.as_slice(),
    )
}

/// `Path::join` for a single relative name.
pub open spec fn join_spec(dir: Seq<char>, name: Seq<char>) -> Seq<char> {
    if dir.len() == 0 || dir.last() == '/' {
        dir + name
    } else {
        dir + "/"@ + name
    }
}

/// Where a downloaded file lands: into a destination that is a directory or
/// ends with `/` (under the source's basename), else the destination itself.
pub open spec fn download_target_spec(dest: Seq<char>, src: Seq<char>, is_dir: bool) -> Seq<char> {
    if is_dir || ends_with(dest, "/"@) {
        join_spec(dest, basename_spec(src))
    } else {
        dest
    }
}

/// The host file a download writes, like `cp`.
pub fn download_target(dest: &str, src: &str, is_dir: bool) -> (r: String)
    ensures
        r@ == download_target_spec(dest@, src@, is_dir),
{
    let slash = has_suffix(dest, "/");
    if is_dir || slash {
        let name = basename(src);
        let mut v: Vec<char> = Vec::new();
        push_str(&mut v, dest);
        let d = chars_of(dest);
        if !(d.len() == 0 || d[d.len() - 1] == '/') {
            push_str(&mut v, "/");
        }
        push_str(&mut v, name.as_str());
        assert(v@ =~= download_target_spec(dest@, src@, is_dir));
        string_of(v.as_slice())
    } else {
        String::from_str(dest)
    }
}

/// A destination written with a trailing `/` names a directory whether or
/// not it exists yet: the download lands in it, under the source's file
/// name, exactly as into an existing directory.
pub proof fn trailing_slash_means_a_directory(dest: Seq<char>, src: Seq<char>)
    requires
        dest.len() > 0,
        dest.last() == '/',
    ensures
        download_target_spec(dest, src, false) == download_target_spec(dest, src, true),
        download_target_spec(dest, src, false) == dest + basename_spec(src),
{
    assert(dest.subrange(dest.len() - 1, dest.len() as int) =~= "/"@) by {
        reveal_strlit("/");
    }
}

/// Into an existing directory, the download is named after its source: the
/// target is the directory, a separator unless it already ends in one, then
/// the source's file name.
pub proof fn downloads_into_a_directory_keep_the_source_name(dest: Seq<char>, src: Seq<char>)
    ensures
        download_target_spec(dest, src, true) == if dest.len() == 0 || dest.last() == '/' {
            dest + basename_spec(src)
        } else {
            dest + "/"@ + basename_spec(src)
        },
{
}

} // verus!
