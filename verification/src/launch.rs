//! Decisions taken when the editor starts: which files it opens, which mode it runs in,
//! which window it shows and in which color, and whether it runs on Windows 11.
use vstd::prelude::*;

use crate::text::{chars_of, contains_exec, contains_seq, push_str, same_text, string_from_chars};
use crate::unicode::{lowercase, to_lowercase};

verus! {

/// The texts of a list of strings.
pub open spec fn texts(v: Seq<String>) -> Seq<Seq<char>> {
    v.map_values(|s: String| s@)
}

/// A command-line argument that is an option, not a file: it starts with `-`.
pub open spec fn is_option(a: Seq<char>) -> bool {
    a.len() > 0 && a[0] == '-'
}

/// The arguments that are not options, in order.
pub open spec fn non_options(args: Seq<Seq<char>>) -> Seq<Seq<char>>
    decreases args.len(),
{
    if args.len() == 0 {
        args
    } else if is_option(args.last()) {
        non_options(args.drop_last())
    } else {
        non_options(args.drop_last()).push(args.last())
    }
}

/// The arguments after the program's own name.
pub open spec fn after_program(args: Seq<Seq<char>>) -> Seq<Seq<char>> {
    if args.len() == 0 {
        args
    } else {
        args.skip(1)
    }
}

/// The files to open at start: the non-option arguments after the program name, preceded
/// by the file the system asked to open, unless it is among them already.
pub open spec fn files_to_open(args: Seq<Seq<char>>, startup: Option<Seq<char>>) -> Seq<
    Seq<char>,
> {
    let files = non_options(after_program(args));
    match startup {
        Some(p) => if files.contains(p) {
            files
        } else {
            seq![p] + files
        },
        None => files,
    }
}

fn is_option_exec(a: &String) -> (b: bool)
    ensures
        b == is_option(a@),
{
    let c = chars_of(a.as_str());
    c.len() > 0 && c[0] == '-'
}

/// The non-option arguments after the program name.
fn path_arguments(args: &Vec<String>) -> (r: Vec<String>)
    ensures
        texts(r@) == non_options(after_program(texts(args@))),
{
    let mut r: Vec<String> = Vec::new();
    if args.len() == 0 {
        proof {
            assert(texts(r@) =~= non_options(after_program(texts(args@))));
        }
        return r;
    }
    let ghost tail = texts(args@).skip(1);
    let mut i: usize = 1;
    while i < args.len()
        invariant
            1 <= i <= args.len(),
            tail == texts(args@).skip(1),
            texts(r@) == non_options(tail.take(i - 1)),
        decreases args.len() - i,
    {
        proof {
            assert(tail.take(i as int).drop_last() =~= tail.take(i - 1));
            assert(tail.take(i as int).last() == args@[i as int]@);
        }
        if !is_option_exec(&args[i]) {
            r.push(args[i].clone());
            proof {
                assert(texts(r@) =~= non_options(tail.take(i as int)));
            }
        } else {
            proof {
                assert(texts(r@) =~= non_options(tail.take(i as int)));
            }
        }
        i += 1;
    }
    proof {
        assert(tail.take(args.len() - 1) =~= tail);
    }
    r
}

/// Whether `v` holds a string with the text of `s`.
fn contains_string(v: &Vec<String>, s: &String) -> (b: bool)
    ensures
        b == texts(v@).contains(s@),
{
    let mut i: usize = 0;
    while i < v.len()
        invariant
            i <= v.len(),
            forall|k: int| 0 <= k < i ==> texts(v@)[k] != s@,
        decreases v.len() - i,
    {
        if v[i] == *s {
            proof {
                assert(texts(v@)[i as int] == s@);
            }
            return true;
        }
        i += 1;
    }
    false
}

/// The files the editor opens at start, from its command line (`args`, the program name
/// first) and the file the system asked it to open, if any.
pub fn markdown_paths(args: &Vec<String>, startup: Option<String>) -> (r: Vec<String>)
    ensures
        texts(r@) == files_to_open(
            texts(args@),
            match startup {
                Some(p) => Some(p@),
                None => None,
            },
        ),
{
    let mut files = path_arguments(args);
    match startup {
        Some(p) => {
            if !contains_string(&files, &p) {
                let ghost before = texts(files@);
                files.insert(0, p);
                proof {
                    assert(texts(files@) =~= seq![p@] + before);
                }
            }
            files
        },
        None => files,
    }
}

/// The first non-option argument after the program name: the file named on the command
/// line.
pub open spec fn path_argument(args: Seq<Seq<char>>) -> Option<Seq<char>> {
    let files = non_options(after_program(args));
    if files.len() > 0 {
        Some(files[0])
    } else {
        None
    }
}

/// The file named on a command line (`args`, the program name first), if any.
pub fn first_path_argument(args: &Vec<String>) -> (r: Option<String>)
    ensures
        match r {
            Some(p) => path_argument(texts(args@)) == Some(p@),
            None => path_argument(texts(args@)) is None,
        },
{
    let files = path_arguments(args);
    if files.len() > 0 {
        proof {
            assert(texts(files@)[0] == files@[0]@);
        }
        Some(files[0].clone())
    } else {
        None
    }
}

proof fn lemma_non_options_contains(s: Seq<Seq<char>>, k: int)
    requires
        0 <= k < s.len(),
        !is_option(s[k]),
    ensures
        non_options(s).contains(s[k]),
    decreases s.len(),
{
    let r = non_options(s.drop_last());
    if k == s.len() - 1 {
        assert(non_options(s) == r.push(s.last()));
        assert(non_options(s)[r.len() as int] == s[k]);
    } else {
        assert(s.drop_last()[k] == s[k]);
        lemma_non_options_contains(s.drop_last(), k);
        let i = choose|i: int| 0 <= i < r.len() && r[i] == s[k];
        if !is_option(s.last()) {
            assert(non_options(s)[i] == s[k]);
        }
    }
}

proof fn lemma_non_options_members(s: Seq<Seq<char>>, x: Seq<char>)
    requires
        non_options(s).contains(x),
    ensures
        !is_option(x),
        s.contains(x),
    decreases s.len(),
{
    let r = non_options(s.drop_last());
    if s.len() > 0 {
        if r.contains(x) {
            lemma_non_options_members(s.drop_last(), x);
            let i = choose|i: int| 0 <= i < s.drop_last().len() && s.drop_last()[i] == x;
            assert(s[i] == x);
        } else {
            let i = choose|i: int| 0 <= i < non_options(s).len() && non_options(s)[i] == x;
            assert(!is_option(s.last()));
            assert(i == r.len());
            assert(s[s.len() - 1] == x);
        }
    }
}

proof fn lemma_non_options_first(s: Seq<Seq<char>>, j: int)
    requires
        0 <= j <= s.len(),
        forall|k: int| 0 <= k < j ==> is_option(#[trigger] s[k]),
    ensures
        j == s.len() ==> non_options(s).len() == 0,
        j < s.len() && !is_option(s[j]) ==> non_options(s).len() > 0 && non_options(s)[0] == s[j],
    decreases s.len(),
{
    if s.len() > 0 {
        let d = s.drop_last();
        if j == s.len() {
            lemma_non_options_first(d, j - 1);
            assert(is_option(s[s.len() - 1]));
        } else if j < s.len() - 1 {
            assert(forall|k: int| 0 <= k < j ==> is_option(#[trigger] d[k])) by {
                assert(forall|k: int| 0 <= k < j ==> d[k] == s[k]);
            }
            assert(d[j] == s[j]);
            lemma_non_options_first(d, j);
        } else {
            assert(forall|k: int| 0 <= k < d.len() ==> is_option(#[trigger] d[k])) by {
                assert(forall|k: int| 0 <= k < d.len() ==> d[k] == s[k]);
            }
            lemma_non_options_first(d, d.len() as int);
        }
    }
}

/// Every argument after the program name that does not start with `-` is opened, whatever
/// the file the system asked for; and, without such a file, only those arguments are.
pub proof fn law_plain_arguments_are_opened(
    args: Seq<Seq<char>>,
    startup: Option<Seq<char>>,
    j: int,
)
    requires
        1 <= j < args.len(),
        args[j].len() == 0 || args[j][0] != '-',
    ensures
        files_to_open(args, startup).contains(args[j]),
        forall|x: Seq<char>| #[trigger]
            files_to_open(args, None).contains(x) ==> (x.len() == 0 || x[0] != '-') && exists|
                i: int,
            |
                1 <= i < args.len() && args[i] == x,
{
    let tail = args.skip(1);
    assert(tail[j - 1] == args[j]);
    lemma_non_options_contains(tail, j - 1);
    let files = non_options(after_program(args));
    match startup {
        Some(p) => {
            if !files.contains(p) {
                let i = choose|i: int| 0 <= i < files.len() && files[i] == args[j];
                assert((seq![p] + files)[i + 1] == args[j]);
            }
        },
        None => {},
    }
    assert forall|x: Seq<char>| #[trigger]
        files_to_open(args, None).contains(x) implies (x.len() == 0 || x[0] != '-') && exists|
            i: int,
        |
            1 <= i < args.len() && args[i] == x by {
        lemma_non_options_members(tail, x);
        let k = choose|k: int| 0 <= k < tail.len() && tail[k] == x;
        assert(args[k + 1] == x);
    }
}

proof fn lemma_non_options_filter(s: Seq<Seq<char>>)
    ensures
        non_options(s) == s.filter(|a: Seq<char>| !(a.len() > 0 && a[0] == '-')),
    decreases s.len(),
{
    if s.len() > 0 {
        lemma_non_options_filter(s.drop_last());
        reveal(Seq::filter);
    }
}

/// Without a file from the system, the files opened are exactly the arguments after the
/// program name that do not start with `-`, each where it stands in the command line.
pub proof fn law_opened_files_keep_argument_order(args: Seq<Seq<char>>)
    requires
        args.len() > 0,
    ensures
        files_to_open(args, None) == args.skip(1).filter(
            |a: Seq<char>| !(a.len() > 0 && a[0] == '-'),
        ),
{
    lemma_non_options_filter(args.skip(1));
}

/// The file named on the command line is the first argument after the program name that
/// does not start with `-`, and there is none when every such argument starts with `-`.
pub proof fn law_first_path_argument(args: Seq<Seq<char>>, j: int)
    requires
        1 <= j <= args.len(),
        forall|k: int| 1 <= k < j ==> (#[trigger] args[k]).len() > 0 && args[k][0] == '-',
    ensures
        j == args.len() ==> path_argument(args) is None,
        j < args.len() && (args[j].len() == 0 || args[j][0] != '-') ==> path_argument(args)
            == Some(args[j]),
{
    let tail = args.skip(1);
    assert forall|k: int| 0 <= k < j - 1 implies is_option(#[trigger] tail[k]) by {
        assert(tail[k] == args[k + 1]);
    }
    if j < args.len() {
        assert(tail[j - 1] == args[j]);
    }
    lemma_non_options_first(tail, j - 1);
}

// ---------------------------------------------------------------------------
// The mode the editor runs in.
// ---------------------------------------------------------------------------

pub open spec fn has_arg(args: Seq<Seq<char>>, a: Seq<char>) -> bool {
    args.contains(a)
}

/// The editor installs itself when asked to with `--install`, or when its executable's
/// name contains `installer` (in any case).
pub open spec fn installer_mode(args: Seq<Seq<char>>, exe_name: Seq<char>) -> bool {
    has_arg(args, "--install"@) || contains_seq(lowercase(exe_name), "installer"@)
}

/// The mode the editor runs in: `uninstall` when asked with `--uninstall`; else `app` once
/// installed; else `installer` in installer mode, and `app` otherwise.
pub open spec fn app_mode(args: Seq<Seq<char>>, exe_name: Seq<char>, installed: bool) -> Seq<
    char,
> {
    if has_arg(args, "--uninstall"@) {
        "uninstall"@
    } else if installed {
        "app"@
    } else if installer_mode(args, exe_name) {
        "installer"@
    } else {
        "app"@
    }
}

/// Whether one of the arguments is `a`.
fn has_arg_exec(args: &Vec<String>, a: &str) -> (b: bool)
    ensures
        b == has_arg(texts(args@), a@),
{
    let mut target: Vec<char> = Vec::new();
    push_str(&mut target, a);
    let mut i: usize = 0;
    while i < args.len()
        invariant
            i <= args.len(),
            target@ == a@,
            forall|k: int| 0 <= k < i ==> texts(args@)[k] != a@,
        decreases args.len() - i,
    {
        let c = chars_of(args[i].as_str());
        if same_text(&c, &target) {
            proof {
                assert(texts(args@)[i as int] == a@);
            }
            return true;
        }
        i += 1;
    }
    false
}

/// Whether the editor runs as its own installer.
pub fn is_installer_mode(args: &Vec<String>, exe_name: &str) -> (b: bool)
    ensures
        b == installer_mode(texts(args@), exe_name@),
{
    if has_arg_exec(args, "--install") {
        return true;
    }
    let lower = to_lowercase(exe_name);
    let lower_chars = chars_of(lower.as_str());
    let mut needle: Vec<char> = Vec::new();
    push_str(&mut needle, "installer");
    contains_exec(&lower_chars, &needle)
}

/// The mode the editor runs in, from its command line, the name of its executable and
/// whether it is installed.
pub fn get_app_mode(args: &Vec<String>, exe_name: &str, installed: bool) -> (r: String)
    ensures
        r@ == app_mode(texts(args@), exe_name@, installed),
{
    let mut v: Vec<char> = Vec::new();
    if has_arg_exec(args, "--uninstall") {
        push_str(&mut v, "uninstall");
    } else if installed {
        push_str(&mut v, "app");
    } else if is_installer_mode(args, exe_name) {
        push_str(&mut v, "installer");
    } else {
        push_str(&mut v, "app");
    }
    proof {
        assert(v@ =~= app_mode(texts(args@), exe_name@, installed));
    }
    string_from_chars(v.as_slice())
}

/// The label of the window the editor opens.
pub fn window_label(installer: bool) -> (r: String)
    ensures
        r@ == (if installer {
            "installer"@
        } else {
            "main"@
        }),
{
    let mut v: Vec<char> = Vec::new();
    if installer {
        push_str(&mut v, "installer");
    } else {
        push_str(&mut v, "main");
    }
    proof {
        assert(v@ =~= (if installer {
            "installer"@
        } else {
            "main"@
        }));
    }
    string_from_chars(v.as_slice())
}

// ---------------------------------------------------------------------------
// The window's background.
// ---------------------------------------------------------------------------

/// A color, red, green, blue and opacity.
#[derive(Clone, Copy, PartialEq, Eq, Debug)]
pub struct Color {
    pub r: u8,
    pub g: u8,
    pub b: u8,
    pub a: u8,
}

pub open spec fn dark_background() -> Color {
    Color { r: 24, g: 24, b: 24, a: 255 }
}

pub open spec fn light_background() -> Color {
    Color { r: 253, g: 253, b: 253, a: 255 }
}

/// The background of the window: dark or light as the saved preference says, else as the
/// system's theme (`None` when it cannot be read, which counts as light).
pub open spec fn background(preference: Seq<char>, system_dark: Option<bool>) -> Color {
    if preference == "dark"@ {
        dark_background()
    } else if preference == "light"@ {
        light_background()
    } else if system_dark == Some(true) {
        dark_background()
    } else {
        light_background()
    }
}

/// The background color of the editor's window.
pub fn background_color(preference: &str, system_dark: Option<bool>) -> (c: Color)
    ensures
        c == background(preference@, system_dark),
{
    let p = chars_of(preference);
    let mut dark: Vec<char> = Vec::new();
    push_str(&mut dark, "dark");
    let mut light: Vec<char> = Vec::new();
    push_str(&mut light, "light");
    if same_text(&p, &dark) {
        Color { r: 24, g: 24, b: 24, a: 255 }
    } else if same_text(&p, &light) {
        Color { r: 253, g: 253, b: 253, a: 255 }
    } else {
        match system_dark {
            Some(true) => Color { r: 24, g: 24, b: 24, a: 255 },
            _ => Color { r: 253, g: 253, b: 253, a: 255 },
        }
    }
}

// ---------------------------------------------------------------------------
// Windows 11.
// ---------------------------------------------------------------------------

pub open spec fn is_digit(c: char) -> bool {
    '0' <= c <= '9'
}

/// The number that a string of decimal digits writes.
pub open spec fn digits_value(s: Seq<char>) -> nat
    decreases s.len(),
{
    if s.len() == 0 {
        0
    } else {
        digits_value(s.drop_last()) * 10 + ((s.last() as nat) - ('0' as nat)) as nat
    }
}

/// The digits of a number that `u32::from_str` reads: the string after an optional `+`.
pub open spec fn unsigned_digits(s: Seq<char>) -> Seq<char> {
    if s.len() > 0 && s[0] == '+' {
        s.skip(1)
    } else {
        s
    }
}

pub open spec fn all_digits(d: Seq<char>) -> bool {
    forall|i: int| 0 <= i < d.len() ==> is_digit(#[trigger] d[i])
}

/// What `u32::from_str` reads from a string: an optional `+` and at least one decimal
/// digit, writing a number that fits in 32 bits; `None` for anything else.
pub open spec fn parsed_u32(s: Seq<char>) -> Option<nat> {
    let d = unsigned_digits(s);
    if d.len() > 0 && all_digits(d) && digits_value(d) <= u32::MAX {
        Some(digits_value(d))
    } else {
        None
    }
}

/// Windows 11 is build 22000 and later.
pub open spec fn is_windows_11_build(current_build: Seq<char>) -> bool {
    match parsed_u32(current_build) {
        Some(n) => n >= 22000,
        None => false,
    }
}

/// Whether the `CurrentBuild` value of the Windows registry names Windows 11 or later.
pub fn build_is_win11(current_build: &str) -> (b: bool)
    ensures
        b == is_windows_11_build(current_build@),
{
    let s = chars_of(current_build);
    let start: usize = if s.len() > 0 && s[0] == '+' {
        1
    } else {
        0
    };
    let ghost d = s@.skip(start as int);
    proof {
        assert(s@.skip(0) =~= s@);
        assert(unsigned_digits(s@) == d);
    }
    if start >= s.len() {
        return false;
    }
    let cap: u64 = 4294967296;
    let mut value: u64 = 0;
    let mut i: usize = start;
    while i < s.len()
        invariant
            start <= i <= s.len(),
            d == s@.skip(start as int),
            d == unsigned_digits(s@),
            s@ == current_build@,
            cap == 4294967296,
            value <= cap,
            forall|k: int| 0 <= k < i - start ==> is_digit(#[trigger] d[k]),
            value == (if digits_value(d.take(i - start)) < cap {
                digits_value(d.take(i - start))
            } else {
                cap as nat
            }),
        decreases s.len() - i,
    {
        let c = s[i];
        if !('0' <= c && c <= '9') {
            proof {
                assert(d[i - start] == c);
                assert(!is_digit(d[i - start]));
                assert(i - start < d.len());
                assert(parsed_u32(s@) is None);
            }
            return false;
        }
        let digit = (c as u32 - '0' as u32) as u64;
        let next = value * 10 + digit;
        value = if next < cap {
            next
        } else {
            cap
        };
        proof {
            let p = d.take(i - start + 1);
            assert(p.drop_last() =~= d.take(i - start));
            assert(p.last() == c);
        }
        i += 1;
    }
    proof {
        assert(d.take(s.len() - start) =~= d);
        assert(all_digits(d));
    }
    value >= 22000 && value < cap
}

} // verus!
