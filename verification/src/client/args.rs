//! The native client's command line:
//! `[--server URL] [--size WxH] [--bench LOGFILE] [--bench-term TERM]`,
//! with the server also from `ANORAK_SERVER`.
use vstd::prelude::*;
use crate::server::torznab::same_chars;
use crate::text::{
    chars_of, find, find_from_exec, lemma_find_contains, occurs_at_exec, slice_chars, starts_with,
    strip_trailing, strip_trailing_exec, string_of,
};

verus! {

/// The settings read from the command line, as values.
pub ghost struct ArgsState {
    pub server: Seq<char>,
    pub bench_arg: Option<Option<Seq<char>>>,
    pub bench_term: Seq<char>,
    pub sizes: Seq<(Seq<char>, Seq<char>)>,
    pub selftest: bool,
    pub help: bool,
    pub ignored: Seq<Seq<char>>,
}

/// The settings read from the command line.
pub struct Args {
    /// The server's URL, without trailing `/`.
    pub server: String,
    /// The bench log file when `--bench` or `--selftest` was given (the last
    /// one wins; its value may be missing); `None` leaves the one from
    /// `ANORAK_GPUI_BENCH`.
    pub bench_arg: Option<Option<String>>,
    pub bench_term: String,
    /// The `W` and `H` of each `--size WxH`, in order: the last pair of
    /// which both parse as numbers is the window size.
    pub sizes: Vec<(String, String)>,
    /// Run the self-test script instead of the timing script.
    pub selftest: bool,
    /// `-h` or `--help` was given: print the usage and exit.
    pub help: bool,
    /// The arguments that were not understood, in order.
    pub ignored: Vec<String>,
}

impl Args {
    pub open spec fn state(&self) -> ArgsState {
        ArgsState {
            server: self.server@,
            bench_arg: match self.bench_arg {
                None => None,
                Some(None) => Some(None),
                Some(Some(p)) => Some(Some(p@)),
            },
            bench_term: self.bench_term@,
            sizes: self.sizes@.map_values(|p: (String, String)| (p.0@, p.1@)),
            selftest: self.selftest,
            help: self.help,
            ignored: self.ignored@.map_values(|s: String| s@),
        }
    }
}

/// The server used when neither `--server` nor `ANORAK_SERVER` names one.
pub open spec fn default_server() -> Seq<char> {
    "http://192.168.0.101:9341"@
}

/// The search term of the bench scripts unless `--bench-term` gives one.
pub open spec fn default_bench_term() -> Seq<char> {
    "one punch"@
}

/// The `W` and `H` of a `WxH` size: the text before and after the first `x`.
pub open spec fn size_pair(v: Seq<char>) -> Option<(Seq<char>, Seq<char>)> {
    match find(v, seq!['x']) {
        Some(i) => Some((v.take(i as int), v.skip(i + 1int))),
        None => None,
    }
}

/// The settings after reading `args` from state `st`: an option that takes
/// a value takes the next argument (when there is one), `-h`/`--help` stops
/// the reading, a URL sets the server, anything else is ignored.
pub open spec fn parse_from(st: ArgsState, args: Seq<Seq<char>>) -> ArgsState
    decreases args.len(),
{
    if args.len() == 0 {
        st
    } else {
        let a = args[0];
        let rest = args.skip(1);
        let next: Option<Seq<char>> = if rest.len() > 0 {
            Some(rest[0])
        } else {
            None
        };
        let after = if rest.len() > 0 {
            rest.skip(1)
        } else {
            rest
        };
        if a == "--server"@ || a == "-s"@ {
            parse_from(
                match next {
                    Some(v) => ArgsState { server: v, ..st },
                    None => st,
                },
                after,
            )
        } else if a == "--bench"@ {
            parse_from(ArgsState { bench_arg: Some(next), ..st }, after)
        } else if a == "--selftest"@ {
            parse_from(ArgsState { bench_arg: Some(next), selftest: true, ..st }, after)
        } else if a == "--bench-term"@ {
            parse_from(
                match next {
                    Some(v) => ArgsState { bench_term: v, ..st },
                    None => st,
                },
                after,
            )
        } else if a == "--size"@ {
            parse_from(
                match next {
                    Some(v) => match size_pair(v) {
                        Some(p) => ArgsState { sizes: st.sizes.push(p), ..st },
                        None => st,
                    },
                    None => st,
                },
                after,
            )
        } else if a == "-h"@ || a == "--help"@ {
            ArgsState { help: true, ..st }
        } else if starts_with(a, "http://"@) || starts_with(a, "https://"@) {
            parse_from(ArgsState { server: a, ..st }, rest)
        } else {
            parse_from(ArgsState { ignored: st.ignored.push(a), ..st }, rest)
        }
    }
}

/// The settings before any argument is read.
pub open spec fn initial_args(server_var: Option<Seq<char>>) -> ArgsState {
    ArgsState {
        server: match server_var {
            Some(s) => s,
            None => default_server(),
        },
        bench_arg: None,
        bench_term: default_bench_term(),
        sizes: Seq::empty(),
        selftest: false,
        help: false,
        ignored: Seq::empty(),
    }
}

/// The settings for the arguments `args` (the program name left out) and
/// the value of `ANORAK_SERVER`, the server's trailing `/` removed.
pub open spec fn parsed_args(server_var: Option<Seq<char>>, args: Seq<Seq<char>>) -> ArgsState {
    let st = parse_from(initial_args(server_var), args);
    ArgsState { server: strip_trailing(st.server, '/'), ..st }
}

/// The parts of a two-argument command line `o v`.
proof fn lemma_two_args(o: Seq<char>, v: Seq<char>)
    ensures
        seq![o, v].len() == 2,
        seq![o, v][0] == o,
        seq![o, v].skip(1).len() == 1,
        seq![o, v].skip(1)[0] == v,
        seq![o, v].skip(1).skip(1) == Seq::<Seq<char>>::empty(),
{
    assert(seq![o, v].skip(1).skip(1) =~= Seq::<Seq<char>>::empty());
}

proof fn lemma_selftest_value(sv: Option<Seq<char>>, v: Seq<char>)
    ensures
        ({
            let r = parsed_args(sv, seq!["--selftest"@, v]);
            r.selftest && r.bench_arg == Some(Some(v)) && r.ignored.len() == 0 && !r.help
        }),
        ({
            let r = parsed_args(sv, seq!["--selftest"@]);
            r.selftest && r.bench_arg == Some(None::<Seq<char>>) && r.ignored.len() == 0 && !r.help
        }),
{
    reveal_strlit("--server");
    assert("--server"@.len() == 8);
    reveal_strlit("-s");
    assert("-s"@.len() == 2);
    reveal_strlit("--bench");
    assert("--bench"@.len() == 7);
    reveal_strlit("--selftest");
    assert("--selftest"@.len() == 10);
    lemma_two_args("--selftest"@, v);
    assert(seq!["--selftest"@].skip(1) =~= Seq::<Seq<char>>::empty());
    let st = initial_args(sv);
    let e = Seq::<Seq<char>>::empty();
    assert("--selftest"@ != "--server"@ && "--selftest"@ != "-s"@ && "--selftest"@ != "--bench"@);
    let st2 = ArgsState { bench_arg: Some(Some(v)), selftest: true, ..st };
    assert(parse_from(st2, e) == st2);
    assert(parse_from(st, seq!["--selftest"@, v]) == parse_from(st2, e));
    let st3 = ArgsState { bench_arg: Some(None), selftest: true, ..st };
    assert(parse_from(st3, e) == st3);
    assert(parse_from(st, seq!["--selftest"@]) == parse_from(st3, e));
}

proof fn lemma_bench_value(sv: Option<Seq<char>>, v: Seq<char>)
    ensures
        ({
            let r = parsed_args(sv, seq!["--bench"@, v]);
            !r.selftest && r.bench_arg == Some(Some(v)) && r.ignored.len() == 0 && !r.help
        }),
{
    reveal_strlit("--server");
    assert("--server"@.len() == 8);
    reveal_strlit("-s");
    assert("-s"@.len() == 2);
    reveal_strlit("--bench");
    assert("--bench"@.len() == 7);
    lemma_two_args("--bench"@, v);
    let st = initial_args(sv);
    let e = Seq::<Seq<char>>::empty();
    assert("--bench"@ != "--server"@ && "--bench"@ != "-s"@);
    let st2 = ArgsState { bench_arg: Some(Some(v)), ..st };
    assert(parse_from(st2, e) == st2);
    assert(parse_from(st, seq!["--bench"@, v]) == parse_from(st2, e));
}

proof fn lemma_server_value(sv: Option<Seq<char>>, v: Seq<char>)
    ensures
        ({
            let r = parsed_args(sv, seq!["--server"@, v]);
            r.server == strip_trailing(v, '/') && r.ignored.len() == 0 && r.bench_arg is None
        }),
        ({
            let r = parsed_args(sv, seq!["-s"@, v]);
            r.server == strip_trailing(v, '/') && r.ignored.len() == 0 && r.bench_arg is None
        }),
{
    lemma_two_args("--server"@, v);
    lemma_two_args("-s"@, v);
    let st = initial_args(sv);
    let st2 = ArgsState { server: v, ..st };
    let e = Seq::<Seq<char>>::empty();
    assert(parse_from(st2, e) == st2);
    assert(parse_from(st, seq!["--server"@, v]) == parse_from(st2, e));
    assert(parse_from(st, seq!["-s"@, v]) == parse_from(st2, e));
}

proof fn lemma_bench_term_value(sv: Option<Seq<char>>, v: Seq<char>)
    ensures
        ({
            let r = parsed_args(sv, seq!["--bench-term"@, v]);
            r.bench_term == v && r.ignored.len() == 0 && r.bench_arg is None
        }),
{
    reveal_strlit("--server");
    assert("--server"@.len() == 8);
    reveal_strlit("-s");
    assert("-s"@.len() == 2);
    reveal_strlit("--bench");
    assert("--bench"@.len() == 7);
    reveal_strlit("--selftest");
    assert("--selftest"@.len() == 10);
    reveal_strlit("--bench-term");
    assert("--bench-term"@.len() == 12);
    lemma_two_args("--bench-term"@, v);
    let st = initial_args(sv);
    let e = Seq::<Seq<char>>::empty();
    assert("--bench-term"@ != "--server"@ && "--bench-term"@ != "-s"@ && "--bench-term"@ != "--bench"@
        && "--bench-term"@ != "--selftest"@);
    let st2 = ArgsState { bench_term: v, ..st };
    assert(parse_from(st2, e) == st2);
    assert(parse_from(st, seq!["--bench-term"@, v]) == parse_from(st2, e));
}

/// The first `x` of `w x h`, where `w` has none, is the one after `w`.
proof fn lemma_size_pair(w: Seq<char>, h: Seq<char>)
    requires
        !w.contains('x'),
    ensures
        size_pair(w + seq!['x'] + h) == Some((w, h)),
{
    let x = w + seq!['x'] + h;
    crate::text::lemma_find_from(x, seq!['x'], 0);
    assert(crate::text::occurs_at(x, seq!['x'], w.len() as int)) by {
        assert(x.subrange(w.len() as int, w.len() + 1int) =~= seq!['x']);
    }
    assert forall|j: int| 0 <= j < w.len() implies !crate::text::occurs_at(x, seq!['x'], j) by {
        if crate::text::occurs_at(x, seq!['x'], j) {
            assert(x.subrange(j, j + 1)[0] == x[j]);
            assert(x[j] == w[j]);
            assert(w.contains('x'));
        }
    }
    assert(find(x, seq!['x']) == Some(w.len()));
    assert(x.take(w.len() as int) =~= w);
    assert(x.skip(w.len() + 1int) =~= h);
}

proof fn lemma_size_value(sv: Option<Seq<char>>, w: Seq<char>, h: Seq<char>)
    requires
        !w.contains('x'),
    ensures
        ({
            let r = parsed_args(sv, seq!["--size"@, w + seq!['x'] + h]);
            r.sizes == seq![(w, h)] && r.ignored.len() == 0
        }),
{
    reveal_strlit("--server");
    assert("--server"@.len() == 8);
    reveal_strlit("-s");
    assert("-s"@.len() == 2);
    reveal_strlit("--bench");
    assert("--bench"@.len() == 7);
    reveal_strlit("--selftest");
    assert("--selftest"@.len() == 10);
    reveal_strlit("--bench-term");
    assert("--bench-term"@.len() == 12);
    reveal_strlit("--size");
    assert("--size"@.len() == 6);
    lemma_two_args("--size"@, w + seq!['x'] + h);
    lemma_size_pair(w, h);
    assert(initial_args(sv).sizes.push((w, h)) =~= seq![(w, h)]);
    let st = initial_args(sv);
    let e = Seq::<Seq<char>>::empty();
    assert("--size"@ != "--server"@ && "--size"@ != "-s"@ && "--size"@ != "--bench"@ && "--size"@
        != "--selftest"@ && "--size"@ != "--bench-term"@);
    let st2 = ArgsState { sizes: st.sizes.push((w, h)), ..st };
    assert(parse_from(st2, e) == st2);
    assert(parse_from(st, seq!["--size"@, w + seq!['x'] + h]) == parse_from(st2, e));
}

/// Law: an option that takes a value takes the argument after it, whatever
/// that argument is, and does not count it among the ignored ones:
/// `--selftest V` and `--bench V` make `V` the bench log (the first also
/// runs the self-test), `--server V` and `-s V` make `V` the server (its
/// trailing `/` removed), `--bench-term V` makes `V` the bench term, and
/// `--size WxH` (with no `x` in `W`) records the size `W` by `H`. A lone
/// `--selftest` runs the self-test with no bench log.
pub proof fn lemma_option_values(sv: Option<Seq<char>>, v: Seq<char>, w: Seq<char>, h: Seq<char>)
    requires
        !w.contains('x'),
    ensures
        ({
            let r = parsed_args(sv, seq!["--selftest"@, v]);
            r.selftest && r.bench_arg == Some(Some(v)) && r.ignored.len() == 0 && !r.help
        }),
        ({
            let r = parsed_args(sv, seq!["--bench"@, v]);
            !r.selftest && r.bench_arg == Some(Some(v)) && r.ignored.len() == 0 && !r.help
        }),
        ({
            let r = parsed_args(sv, seq!["--server"@, v]);
            r.server == strip_trailing(v, '/') && r.ignored.len() == 0 && r.bench_arg is None
        }),
        ({
            let r = parsed_args(sv, seq!["-s"@, v]);
            r.server == strip_trailing(v, '/') && r.ignored.len() == 0 && r.bench_arg is None
        }),
        ({
            let r = parsed_args(sv, seq!["--bench-term"@, v]);
            r.bench_term == v && r.ignored.len() == 0 && r.bench_arg is None
        }),
        ({
            let r = parsed_args(sv, seq!["--size"@, w + seq!['x'] + h]);
            r.sizes == seq![(w, h)] && r.ignored.len() == 0
        }),
        ({
            let r = parsed_args(sv, seq!["--selftest"@]);
            r.selftest && r.bench_arg == Some(None::<Seq<char>>) && r.ignored.len() == 0 && !r.help
        }),
{
    lemma_selftest_value(sv, v);
    lemma_bench_value(sv, v);
    lemma_server_value(sv, v);
    lemma_bench_term_value(sv, v);
    lemma_size_value(sv, w, h);
}

/// `a` is the text `lit`.
fn is_text(a: &[char], lit: &str) -> (r: bool)
    ensures
        r == (a@ == lit@),
{
    let l = chars_of(lit);
    same_chars(a, l.as_slice())
}

/// `a` begins with `lit`.
fn begins_with(a: &[char], lit: &str) -> (r: bool)
    ensures
        r == starts_with(a@, lit@),
{
    let l = chars_of(lit);
    let r = occurs_at_exec(a, l.as_slice(), 0);
    proof {
        if l@.len() <= a@.len() {
            assert(a@.take(l@.len() as int) =~= a@.subrange(0, l@.len() as int));
        }
    }
    r
}

/// The `W` and `H` of a `WxH` size.
fn split_size(v: &str) -> (r: Option<(String, String)>)
    ensures
        match size_pair(v@) {
            Some(p) => r matches Some(q) && q.0@ == p.0 && q.1@ == p.1,
            None => r is None,
        },
{
    let cs = chars_of(v);
    let x: Vec<char> = vec!['x'];
    assert(x@ == seq!['x']);
    match find_from_exec(cs.as_slice(), x.as_slice(), 0) {
        Some(i) => {
            proof {
                lemma_find_contains(cs@, x@);
            }
            assert(i + 1 <= cs.len());
            assert(cs@.take(i as int) =~= cs@.subrange(0, i as int));
            assert(cs@.skip(i + 1) =~= cs@.subrange(i + 1, cs@.len() as int));
            let w = slice_chars(cs.as_slice(), 0, i);
            let h = slice_chars(cs.as_slice(), i + 1, cs.len());
            Some((string_of(w.as_slice()), string_of(h.as_slice())))
        },
        None => None,
    }
}

/// Reads the command line `args` (the program name left out), with `server_var`
/// the value of `ANORAK_SERVER`.
pub fn parse_args(server_var: Option<String>, args: &[String]) -> (r: Args)
    ensures
        r.state() == parsed_args(
            match server_var {
                Some(s) => Some(s@),
                None => None,
            },
            args@.map_values(|s: String| s@),
        ),
{
    let ghost argv = args@.map_values(|s: String| s@);
    let ghost sv = match &server_var {
        Some(s) => Some(s@),
        None => None,
    };
    let ghost init = initial_args(sv);
    let server = match server_var {
        Some(s) => s,
        None => "http://192.168.0.101:9341".to_owned(),
    };
    let mut cur = Args {
        server,
        bench_arg: None,
        bench_term: "one punch".to_owned(),
        sizes: Vec::new(),
        selftest: false,
        help: false,
        ignored: Vec::new(),
    };
    assert(cur.state().sizes =~= Seq::<(Seq<char>, Seq<char>)>::empty());
    assert(cur.state().ignored =~= Seq::<Seq<char>>::empty());
    assert(cur.state() == init);
    assert(argv.skip(0) =~= argv);
    let n = args.len();
    let mut i: usize = 0;
    while i < n
        invariant
            n == args@.len(),
            argv == args@.map_values(|s: String| s@),
            i <= n,
            !cur.help,
            init == initial_args(sv),
            sv == (match server_var {
                Some(s) => Some(s@),
                None => None::<Seq<char>>,
            }),
            parse_from(cur.state(), argv.skip(i as int)) == parse_from(init, argv),
        decreases n - i,
    {
        let ghost st = cur.state();
        let ghost t = argv.skip(i as int);
        assert(t[0] == args@[i as int]@);
        assert(t.skip(1) =~= argv.skip(i + 1));
        if i + 1 < n {
            assert(t.skip(1)[0] == args@[i + 1]@);
            assert(t.skip(1).skip(1) =~= argv.skip(i + 2));
        }
        let a = chars_of(args[i].as_str());
        let has_next = i + 1 < n;
        if is_text(a.as_slice(), "--server") || is_text(a.as_slice(), "-s") {
            if has_next {
                cur.server = args[i + 1].clone();
                i = i + 2;
            } else {
                i = i + 1;
            }
        } else if is_text(a.as_slice(), "--bench") {
            if has_next {
                cur.bench_arg = Some(Some(args[i + 1].clone()));
                i = i + 2;
            } else {
                cur.bench_arg = Some(None);
                i = i + 1;
            }
        } else if is_text(a.as_slice(), "--selftest") {
            if has_next {
                cur.bench_arg = Some(Some(args[i + 1].clone()));
                i = i + 2;
            } else {
                cur.bench_arg = Some(None);
                i = i + 1;
            }
            cur.selftest = true;
        } else if is_text(a.as_slice(), "--bench-term") {
            if has_next {
                cur.bench_term = args[i + 1].clone();
                i = i + 2;
            } else {
                i = i + 1;
            }
        } else if is_text(a.as_slice(), "--size") {
            if has_next {
                match split_size(args[i + 1].as_str()) {
                    Some(p) => {
                        let ghost old_sizes = cur.sizes@;
                        cur.sizes.push(p);
                        assert(cur.sizes@.map_values(|p: (String, String)| (p.0@, p.1@)) =~= old_sizes.map_values(
                            |p: (String, String)| (p.0@, p.1@),
                        ).push(size_pair(args@[i + 1]@).unwrap()));
                    },
                    None => {},
                }
                i = i + 2;
            } else {
                i = i + 1;
            }
        } else if is_text(a.as_slice(), "-h") || is_text(a.as_slice(), "--help") {
            cur.help = true;
            assert(cur.state() == parse_from(st, t));
            cur.server = string_of(strip_trailing_exec(chars_of(cur.server.as_str()).as_slice(), '/').as_slice());
            assert(cur.state() == parsed_args(sv, argv));
            return cur;
        } else if begins_with(a.as_slice(), "http://") || begins_with(a.as_slice(), "https://") {
            cur.server = args[i].clone();
            i = i + 1;
        } else {
            let ghost old_ignored = cur.ignored@;
            cur.ignored.push(args[i].clone());
            assert(cur.ignored@.map_values(|s: String| s@) =~= old_ignored.map_values(|s: String| s@).push(
                args@[i as int]@,
            ));
            i = i + 1;
        }
    }
    assert(argv.skip(n as int) =~= Seq::<Seq<char>>::empty());
    cur.server = string_of(strip_trailing_exec(chars_of(cur.server.as_str()).as_slice(), '/').as_slice());
    cur
}

} // verus!
