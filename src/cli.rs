//! The command line: which statements to run.
use vstd::prelude::*;
use crate::value::text_is;

verus! {

/// One thing that the command line asks for.
#[derive(Debug)]
pub enum Action {
    /// Watch the entry file and run what is written to it.
    Run,
    /// Run the statements of a file.
    OneFile(String),
    /// Run one statement.
    OneQuery(String),
}

/// Why the command line cannot be followed.
#[derive(Debug)]
pub enum ArgError {
    /// `-f` is not followed by a path.
    MissingFilePath,
    /// `-d` is not followed by a statement.
    MissingQuery,
    /// `-j` (writing results to a file) is not available.
    Unsupported(String),
    /// A word that is no parameter.
    UnknownParameter(String),
    /// `-j` is not followed by a path.
    MissingJsonPath,
    /// Both a statement and a file were given.
    QueryAndFile,
}

pub open spec fn flag_run() -> Seq<char> {
    seq!['-', 'r', 'u', 'n']
}

pub open spec fn flag_file() -> Seq<char> {
    seq!['-', 'f']
}

pub open spec fn flag_query() -> Seq<char> {
    seq!['-', 'd']
}

pub open spec fn flag_json() -> Seq<char> {
    seq!['-', 'j']
}

/// The actions that the arguments from position `i` on ask for, in order;
/// the first word that cannot be followed gives the error.
pub open spec fn parsed_args(args: Seq<String>, i: int) -> Result<Seq<Action>, ArgError>
    decreases args.len() - i,
{
    if i < 0 || i >= args.len() {
        Ok(Seq::empty())
    } else {
        let a = args[i]@;
        if a == flag_run() {
            match parsed_args(args, i + 1) {
                Ok(rest) => Ok(seq![Action::Run] + rest),
                Err(e) => Err(e),
            }
        } else if a == flag_file() {
            if i + 1 < args.len() {
                match parsed_args(args, i + 2) {
                    Ok(rest) => Ok(seq![Action::OneFile(args[i + 1])] + rest),
                    Err(e) => Err(e),
                }
            } else {
                Err(ArgError::MissingFilePath)
            }
        } else if a == flag_query() {
            if i + 1 < args.len() {
                match parsed_args(args, i + 2) {
                    Ok(rest) => Ok(seq![Action::OneQuery(args[i + 1])] + rest),
                    Err(e) => Err(e),
                }
            } else {
                Err(ArgError::MissingQuery)
            }
        } else if a == flag_json() {
            Err(ArgError::Unsupported(args[i]))
        } else {
            Err(ArgError::UnknownParameter(args[i]))
        }
    }
}

/// Reads the command line (the program's name first): `-run`, `-f PATH`
/// and `-d STATEMENT`, in any number and order.
pub fn begin(args: &Vec<String>) -> (r: Result<Vec<Action>, ArgError>)
    ensures
        match parsed_args(args@, 1) {
            Ok(s) => r is Ok && r.unwrap()@ == s,
            Err(e) => r == Err::<Vec<Action>, ArgError>(e),
        },
{
    proof {
        reveal_strlit("-run");
        reveal_strlit("-f");
        reveal_strlit("-d");
        reveal_strlit("-j");
        assert("-run"@ =~= flag_run());
        assert("-f"@ =~= flag_file());
        assert("-d"@ =~= flag_query());
        assert("-j"@ =~= flag_json());
    }
    let mut actions: Vec<Action> = Vec::new();
    let mut i: usize = 1;
    while i < args.len()
        invariant
            1 <= i,
            "-run"@ == flag_run(),
            "-f"@ == flag_file(),
            "-d"@ == flag_query(),
            "-j"@ == flag_json(),
            parsed_args(args@, 1) == (match parsed_args(args@, i as int) {
                Ok(rest) => Ok(actions@ + rest),
                Err(e) => Err::<Seq<Action>, ArgError>(e),
            }),
        decreases args@.len() - i,
    {
        let a = args[i].as_str();
        let ghost before = actions@;
        if text_is(a, "-run") {
            actions.push(Action::Run);
            proof {
                match parsed_args(args@, i as int + 1) {
                    Ok(rest) => {
                        assert(before + (seq![Action::Run] + rest) =~= actions@ + rest);
                    },
                    Err(_) => {},
                }
            }
            i = i + 1;
        } else if text_is(a, "-f") {
            if i + 1 >= args.len() {
                return Err(ArgError::MissingFilePath);
            }
            let p = args[i + 1].clone();
            actions.push(Action::OneFile(p));
            proof {
                match parsed_args(args@, i as int + 2) {
                    Ok(rest) => {
                        assert(before + (seq![Action::OneFile(args@[i as int + 1])] + rest) =~= actions@ + rest);
                    },
                    Err(_) => {},
                }
            }
            i = i + 2;
        } else if text_is(a, "-d") {
            if i + 1 >= args.len() {
                return Err(ArgError::MissingQuery);
            }
            let q = args[i + 1].clone();
            actions.push(Action::OneQuery(q));
            proof {
                match parsed_args(args@, i as int + 2) {
                    Ok(rest) => {
                        assert(before + (seq![Action::OneQuery(args@[i as int + 1])] + rest) =~= actions@ + rest);
                    },
                    Err(_) => {},
                }
            }
            i = i + 2;
        } else if text_is(a, "-j") {
            return Err(ArgError::Unsupported(args[i].clone()));
        } else {
            return Err(ArgError::UnknownParameter(args[i].clone()));
        }
    }
    assert(actions@ + Seq::<Action>::empty() =~= actions@);
    Ok(actions)
}

/// The options of the command-line program: a statement or a file of
/// statements to run, a file for the results, pretty output, the IDE.
#[derive(Debug)]
pub struct RequestParameters {
    pub request: String,
    pub json_file: String,
    pub pretty: bool,
    pub file_sql: String,
    pub ide: bool,
}

pub open spec fn flag_ide() -> Seq<char> {
    seq!['-', 'i', 'd', 'e']
}

pub open spec fn flag_pretty() -> Seq<char> {
    seq!['-', 'p']
}

/// What the options hold.
pub struct Options {
    pub request: Seq<char>,
    pub json_file: Seq<char>,
    pub pretty: bool,
    pub file_sql: Seq<char>,
    pub ide: bool,
}

pub open spec fn no_options() -> Options {
    Options {
        request: Seq::empty(),
        json_file: Seq::empty(),
        pretty: false,
        file_sql: Seq::empty(),
        ide: false,
    }
}

/// The options after reading the arguments from position `i` on into `p`.
pub open spec fn params_from(args: Seq<String>, i: int, p: Options) -> Result<Options, ArgError>
    decreases args.len() - i,
{
    if i < 0 || i >= args.len() {
        Ok(p)
    } else {
        let a = args[i]@;
        if a == flag_json() {
            if i + 1 < args.len() {
                params_from(args, i + 2, Options { json_file: args[i + 1]@, ..p })
            } else {
                Err(ArgError::MissingJsonPath)
            }
        } else if a == flag_ide() {
            params_from(args, i + 1, Options { ide: true, ..p })
        } else if a == flag_file() {
            if i + 1 < args.len() {
                params_from(args, i + 2, Options { file_sql: args[i + 1]@, ..p })
            } else {
                Err(ArgError::MissingFilePath)
            }
        } else if a == flag_query() {
            if i + 1 < args.len() {
                params_from(args, i + 2, Options { request: args[i + 1]@, ..p })
            } else {
                Ok(p)
            }
        } else if a == flag_pretty() {
            params_from(args, i + 1, Options { pretty: true, ..p })
        } else {
            Err(ArgError::UnknownParameter(args[i]))
        }
    }
}

/// The options that a command line gives: `QueryAndFile` when it gives
/// both a statement and a file.
pub open spec fn options_of(args: Seq<String>) -> Result<Options, ArgError> {
    match params_from(args, 1, no_options()) {
        Ok(q) => if q.request.len() > 0 && q.file_sql.len() > 0 {
            Err(ArgError::QueryAndFile)
        } else {
            Ok(q)
        },
        Err(e) => Err(e),
    }
}

impl RequestParameters {
    /// No statement, no file, no option.
    pub fn new() -> (r: RequestParameters)
        ensures
            r.request@ == Seq::<char>::empty(),
            r.json_file@ == Seq::<char>::empty(),
            r.file_sql@ == Seq::<char>::empty(),
            !r.pretty,
            !r.ide,
    {
        RequestParameters {
            request: String::new(),
            pretty: false,
            json_file: String::new(),
            file_sql: String::new(),
            ide: false,
        }
    }

    pub open spec fn options(&self) -> Options {
        Options {
            request: self.request@,
            json_file: self.json_file@,
            pretty: self.pretty,
            file_sql: self.file_sql@,
            ide: self.ide,
        }
    }

    /// Reads the program's command line (its name first): `-j PATH`, `-ide`,
    /// `-f PATH`, `-d STATEMENT`, `-p`; a statement and a file may not both
    /// be given.
    pub fn from_args(args: &Vec<String>) -> (r: Result<RequestParameters, ArgError>)
        ensures
            match options_of(args@) {
                Ok(q) => r is Ok && r.unwrap().options() == q,
                Err(e) => r == Err::<RequestParameters, ArgError>(e),
            },
    {
        let mut p = RequestParameters::new();
        assert(p.options() == no_options());
        proof {
            reveal_strlit("-j");
            reveal_strlit("-ide");
            reveal_strlit("-f");
            reveal_strlit("-d");
            reveal_strlit("-p");
            assert("-j"@ =~= flag_json());
            assert("-ide"@ =~= flag_ide());
            assert("-f"@ =~= flag_file());
            assert("-d"@ =~= flag_query());
            assert("-p"@ =~= flag_pretty());
        }
        let mut i: usize = 1;
        while i < args.len()
            invariant
                1 <= i,
                "-j"@ == flag_json(),
                "-ide"@ == flag_ide(),
                "-f"@ == flag_file(),
                "-d"@ == flag_query(),
                "-p"@ == flag_pretty(),
                params_from(args@, 1, no_options()) == params_from(args@, i as int, p.options()),
            decreases args@.len() - i,
        {
            let a = args[i].as_str();
            let ghost old_p = p.options();
            if text_is(a, "-j") {
                if i + 1 >= args.len() {
                    return Err(ArgError::MissingJsonPath);
                }
                p.json_file = args[i + 1].clone();
                proof {
                    assert(p.options() == Options { json_file: args@[i + 1]@, ..old_p });
                }
                i = i + 2;
            } else if text_is(a, "-ide") {
                p.ide = true;
                i = i + 1;
            } else if text_is(a, "-f") {
                if i + 1 >= args.len() {
                    return Err(ArgError::MissingFilePath);
                }
                p.file_sql = args[i + 1].clone();
                proof {
                    assert(p.options() == Options { file_sql: args@[i + 1]@, ..old_p });
                }
                i = i + 2;
            } else if text_is(a, "-d") {
                if i + 1 < args.len() {
                    p.request = args[i + 1].clone();
                    proof {
                        assert(p.options() == Options { request: args@[i + 1]@, ..old_p });
                    }
                } else {
                    return if p.request.as_str().unicode_len() > 0 && p.file_sql.as_str().unicode_len() > 0 {
                        Err(ArgError::QueryAndFile)
                    } else {
                        Ok(p)
                    };
                }
                i = i + 2;
            } else if text_is(a, "-p") {
                p.pretty = true;
                i = i + 1;
            } else {
                return Err(ArgError::UnknownParameter(args[i].clone()));
            }
        }
        if p.request.as_str().unicode_len() > 0 && p.file_sql.as_str().unicode_len() > 0 {
            return Err(ArgError::QueryAndFile);
        }
        Ok(p)
    }
}

} // verus!
