//! The wire format of the remote service: writing the JSON body of an
//! execute request, and reading the JSON bodies of an execute response
//! and of the runtime catalog.

use vstd::prelude::*;
use vstd::string::StringExecFns;

use crate::File;
use crate::FileView;
use crate::executor::Executor;
use crate::executor::ExecutorView;
use crate::executor::ExecResponse;
use crate::executor::ExecResponseView;
use crate::executor::ExecResult;
use crate::executor::ExecResultView;
use crate::Runtime;
use crate::RuntimeView;
use crate::json::dec_int;
use crate::json::json_string;
use crate::json::lemma_sp_int_advances;
use crate::json::lemma_sp_string_advances;
use crate::json::lemma_sp_ws_bounds;
use crate::json::parse_int;
use crate::json::parse_null;
use crate::json::parse_string;
use crate::json::skip_ws;
use crate::json::sp_int;
use crate::json::sp_null;
use crate::json::sp_string;
use crate::json::sp_ws;
use crate::json::write_dec;
use crate::json::write_json_string;

verus! {

/// The JSON object standing for one source file.
pub open spec fn file_json(f: FileView) -> Seq<char> {
    "{\"name\":"@ + json_string(f.name) + ",\"content\":"@ + json_string(f.content)
        + ",\"encoding\":"@ + json_string(f.encoding) + "}"@
}

/// The tail of a JSON array of file objects: a comma before each
/// element after the first.
pub open spec fn files_rest(fs: Seq<FileView>) -> Seq<char>
    decreases fs.len(),
{
    if fs.len() == 0 {
        Seq::empty()
    } else {
        seq![','] + file_json(fs[0]) + files_rest(fs.drop_first())
    }
}

/// A JSON array of file objects.
pub open spec fn files_json(fs: Seq<FileView>) -> Seq<char> {
    if fs.len() == 0 {
        "[]"@
    } else {
        seq!['['] + file_json(fs[0]) + files_rest(fs.drop_first()) + seq![']']
    }
}

proof fn lemma_files_rest_push(fs: Seq<FileView>, f: FileView)
    ensures
        files_rest(fs.push(f)) == files_rest(fs) + seq![','] + file_json(f),
    decreases fs.len(),
{
    if fs.len() == 0 {
        assert(fs.push(f).drop_first() =~= Seq::<FileView>::empty());
        assert(files_rest(Seq::<FileView>::empty()) == Seq::<char>::empty());
        assert(files_rest(fs.push(f)) =~= files_rest(fs) + seq![','] + file_json(f));
    } else {
        assert(fs.push(f).drop_first() =~= fs.drop_first().push(f));
        lemma_files_rest_push(fs.drop_first(), f);
        assert(files_rest(fs.push(f)) =~= files_rest(fs) + seq![','] + file_json(f));
    }
}

/// The tail of a JSON array of strings: a comma before each element
/// after the first.
pub open spec fn strings_rest(xs: Seq<Seq<char>>) -> Seq<char>
    decreases xs.len(),
{
    if xs.len() == 0 {
        Seq::empty()
    } else {
        seq![','] + json_string(xs[0]) + strings_rest(xs.drop_first())
    }
}

/// A JSON array of strings.
pub open spec fn strings_json(xs: Seq<Seq<char>>) -> Seq<char> {
    if xs.len() == 0 {
        "[]"@
    } else {
        seq!['['] + json_string(xs[0]) + strings_rest(xs.drop_first()) + seq![']']
    }
}

proof fn lemma_strings_rest_push(xs: Seq<Seq<char>>, x: Seq<char>)
    ensures
        strings_rest(xs.push(x)) == strings_rest(xs) + seq![','] + json_string(x),
    decreases xs.len(),
{
    if xs.len() == 0 {
        assert(xs.push(x).drop_first() =~= Seq::<Seq<char>>::empty());
        assert(strings_rest(Seq::<Seq<char>>::empty()) == Seq::<char>::empty());
        assert(strings_rest(xs.push(x)) =~= strings_rest(xs) + seq![','] + json_string(x));
    } else {
        assert(xs.push(x).drop_first() =~= xs.drop_first().push(x));
        lemma_strings_rest_push(xs.drop_first(), x);
        assert(strings_rest(xs.push(x)) =~= strings_rest(xs) + seq![','] + json_string(x));
    }
}

/// The JSON body of an execute request, exactly as it is sent: every
/// field of the request, in the documented order.
pub open spec fn request_json(e: ExecutorView) -> Seq<char> {
    "{\"language\":"@ + json_string(e.language) + ",\"version\":"@ + json_string(e.version)
        + ",\"files\":"@ + files_json(e.files) + ",\"stdin\":"@ + json_string(e.stdin)
        + ",\"args\":"@ + strings_json(e.args) + ",\"compile_timeout\":"@ + dec_int(
        e.compile_timeout,
    ) + ",\"run_timeout\":"@ + dec_int(e.run_timeout) + ",\"compile_memory_limit\":"@ + dec_int(
        e.compile_memory_limit,
    ) + ",\"run_memory_limit\":"@ + dec_int(e.run_memory_limit) + "}"@
}

/// The fields of an outcome object gathered so far while reading its
/// members.
pub struct ResultAcc {
    pub stdout: Option<Seq<char>>,
    pub stderr: Option<Seq<char>>,
    pub output: Option<Seq<char>>,
    pub code: Option<int>,
    pub signal: Option<Option<Seq<char>>>,
}

/// No outcome members read yet.
pub open spec fn empty_result_acc() -> ResultAcc {
    ResultAcc { stdout: None, stderr: None, output: None, code: None, signal: None }
}

/// One member of an outcome object read from `i` (at the key's
/// opening quote): the updated fields and the position after the
/// member's trailing whitespace.  A repeated or unrecognized key is
/// rejected.
#[verifier::opaque]
pub open spec fn sp_result_member(s: Seq<char>, i: int, acc: ResultAcc) -> Option<
    (ResultAcc, int),
> {
    match sp_string(s, i) {
        None => None,
        Some((key, j)) => {
            let j2 = sp_ws(s, j);
            if !(j2 < s.len() && s[j2] == ':') {
                None
            } else {
                let j3 = sp_ws(s, j2 + 1);
                if key == "stdout"@ {
                    if acc.stdout is Some {
                        None
                    } else {
                        match sp_string(s, j3) {
                            None => None,
                            Some((v, p)) => Some(
                                ((ResultAcc { stdout: Some(v), ..acc }), sp_ws(s, p)),
                            ),
                        }
                    }
                } else if key == "stderr"@ {
                    if acc.stderr is Some {
                        None
                    } else {
                        match sp_string(s, j3) {
                            None => None,
                            Some((v, p)) => Some(
                                ((ResultAcc { stderr: Some(v), ..acc }), sp_ws(s, p)),
                            ),
                        }
                    }
                } else if key == "output"@ {
                    if acc.output is Some {
                        None
                    } else {
                        match sp_string(s, j3) {
                            None => None,
                            Some((v, p)) => Some(
                                ((ResultAcc { output: Some(v), ..acc }), sp_ws(s, p)),
                            ),
                        }
                    }
                } else if key == "code"@ {
                    if acc.code is Some {
                        None
                    } else {
                        match sp_int(s, j3) {
                            None => None,
                            Some((v, p)) => Some(
                                ((ResultAcc { code: Some(v), ..acc }), sp_ws(s, p)),
                            ),
                        }
                    }
                } else if key == "signal"@ {
                    if acc.signal is Some {
                        None
                    } else {
                        match sp_null(s, j3) {
                            Some(p) => Some(
                                ((ResultAcc { signal: Some(None), ..acc }), sp_ws(s, p)),
                            ),
                            None => match sp_string(s, j3) {
                                None => None,
                                Some((v, p)) => Some(
                                    ((ResultAcc { signal: Some(Some(v)), ..acc }), sp_ws(s, p)),
                                ),
                            },
                        }
                    }
                } else {
                    None
                }
            }
        },
    }
}

/// Reading an outcome member consumes at least one character and
/// stays within the input.
pub proof fn lemma_sp_result_member_advances(s: Seq<char>, i: int, acc: ResultAcc)
    ensures
        sp_result_member(s, i, acc) matches Some(p) ==> 0 <= i < p.1 <= s.len(),
{
    reveal(sp_result_member);
    lemma_sp_string_advances(s, i);
    match sp_string(s, i) {
        None => {},
        Some((key, j)) => {
            lemma_sp_ws_bounds(s, j);
            let j2 = sp_ws(s, j);
            if j2 < s.len() && s[j2] == ':' {
                lemma_sp_ws_bounds(s, j2 + 1);
                let j3 = sp_ws(s, j2 + 1);
                lemma_sp_string_advances(s, j3);
                lemma_sp_int_advances(s, j3);
                match sp_string(s, j3) {
                    Some((v, p)) => lemma_sp_ws_bounds(s, p),
                    None => {},
                }
                match sp_int(s, j3) {
                    Some((v, p)) => lemma_sp_ws_bounds(s, p),
                    None => {},
                }
                match sp_null(s, j3) {
                    Some(p) => lemma_sp_ws_bounds(s, p),
                    None => {},
                }
            }
        },
    }
}

/// The members of an outcome object read from `i` (at the first
/// member's key): the gathered fields and the position just past the
/// closing brace.
pub open spec fn sp_result_member_list(s: Seq<char>, i: int, acc: ResultAcc) -> Option<
    (ResultAcc, int),
>
    decreases s.len() - i,
{
    match sp_result_member(s, i, acc) {
        None => None,
        Some((acc2, j)) => {
            if j < s.len() && s[j] == ',' {
                proof {
                    lemma_sp_result_member_advances(s, i, acc);
                    lemma_sp_ws_bounds(s, j + 1);
                }
                sp_result_member_list(s, sp_ws(s, j + 1), acc2)
            } else if j < s.len() && s[j] == '}' {
                Some((acc2, j + 1))
            } else {
                None
            }
        },
    }
}

/// Reading an outcome member list consumes at least one character and
/// stays within the input.
pub proof fn lemma_sp_result_member_list_advances(s: Seq<char>, i: int, acc: ResultAcc)
    ensures
        sp_result_member_list(s, i, acc) matches Some(p) ==> i < p.1 <= s.len(),
    decreases s.len() - i,
{
    lemma_sp_result_member_advances(s, i, acc);
    match sp_result_member(s, i, acc) {
        None => {},
        Some((acc2, j)) => {
            if j < s.len() && s[j] == ',' {
                lemma_sp_ws_bounds(s, j + 1);
                lemma_sp_result_member_list_advances(s, sp_ws(s, j + 1), acc2);
            }
        },
    }
}

/// The outcome a finished object stands for: `stdout`, `stderr`,
/// `output` and `code` must have been seen; a missing `signal` is no
/// signal.
pub open spec fn finish_result(acc: ResultAcc) -> Option<ExecResultView> {
    match (acc.stdout, acc.stderr, acc.output, acc.code) {
        (Some(so), Some(se), Some(op), Some(cd)) => Some(
            ExecResultView {
                stdout: so,
                stderr: se,
                output: op,
                code: cd,
                signal: match acc.signal {
                    Some(sg) => sg,
                    None => None,
                },
            },
        ),
        _ => None,
    }
}

/// A whole outcome object read from `i` (at its opening brace): the
/// outcome and the position just past the closing brace.
pub open spec fn sp_result_obj(s: Seq<char>, i: int) -> Option<(ExecResultView, int)> {
    if 0 <= i < s.len() && s[i] == '{' {
        let j = sp_ws(s, i + 1);
        if j < s.len() && s[j] == '}' {
            None
        } else {
            match sp_result_member_list(s, j, empty_result_acc()) {
                None => None,
                Some((acc, k)) => match finish_result(acc) {
                    None => None,
                    Some(rv) => Some((rv, k)),
                },
            }
        }
    } else {
        None
    }
}

/// Reading an outcome object consumes at least one character and
/// stays within the input.
pub proof fn lemma_sp_result_obj_advances(s: Seq<char>, i: int)
    ensures
        sp_result_obj(s, i) matches Some(p) ==> i < p.1 <= s.len(),
{
    if 0 <= i < s.len() && s[i] == '{' {
        lemma_sp_ws_bounds(s, i + 1);
        let j = sp_ws(s, i + 1);
        if !(j < s.len() && s[j] == '}') {
            lemma_sp_result_member_list_advances(s, j, empty_result_acc());
        }
    }
}

/// The fields of a response object gathered so far while reading its
/// members.
pub struct ResponseAcc {
    pub language: Option<Seq<char>>,
    pub version: Option<Seq<char>>,
    pub run: Option<ExecResultView>,
    pub compile: Option<Option<ExecResultView>>,
    pub message: Option<Option<Seq<char>>>,
}

/// No response members read yet.
pub open spec fn empty_response_acc() -> ResponseAcc {
    ResponseAcc { language: None, version: None, run: None, compile: None, message: None }
}

/// One member of a response object read from `i` (at the key's
/// opening quote).  A repeated or unrecognized key is rejected; the
/// `compile` and `message` members also accept `null`.
#[verifier::opaque]
pub open spec fn sp_response_member(s: Seq<char>, i: int, acc: ResponseAcc) -> Option<
    (ResponseAcc, int),
> {
    match sp_string(s, i) {
        None => None,
        Some((key, j)) => {
            let j2 = sp_ws(s, j);
            if !(j2 < s.len() && s[j2] == ':') {
                None
            } else {
                let j3 = sp_ws(s, j2 + 1);
                if key == "language"@ {
                    if acc.language is Some {
                        None
                    } else {
                        match sp_string(s, j3) {
                            None => None,
                            Some((v, p)) => Some(
                                ((ResponseAcc { language: Some(v), ..acc }), sp_ws(s, p)),
                            ),
                        }
                    }
                } else if key == "version"@ {
                    if acc.version is Some {
                        None
                    } else {
                        match sp_string(s, j3) {
                            None => None,
                            Some((v, p)) => Some(
                                ((ResponseAcc { version: Some(v), ..acc }), sp_ws(s, p)),
                            ),
                        }
                    }
                } else if key == "run"@ {
                    if acc.run is Some {
                        None
                    } else {
                        match sp_result_obj(s, j3) {
                            None => None,
                            Some((v, p)) => Some(
                                ((ResponseAcc { run: Some(v), ..acc }), sp_ws(s, p)),
                            ),
                        }
                    }
                } else if key == "compile"@ {
                    if acc.compile is Some {
                        None
                    } else {
                        match sp_null(s, j3) {
                            Some(p) => Some(
                                ((ResponseAcc { compile: Some(None), ..acc }), sp_ws(s, p)),
                            ),
                            None => match sp_result_obj(s, j3) {
                                None => None,
                                Some((v, p)) => Some(
                                    ((ResponseAcc { compile: Some(Some(v)), ..acc }), sp_ws(s, p)),
                                ),
                            },
                        }
                    }
                } else if key == "message"@ {
                    if acc.message is Some {
                        None
                    } else {
                        match sp_null(s, j3) {
                            Some(p) => Some(
                                ((ResponseAcc { message: Some(None), ..acc }), sp_ws(s, p)),
                            ),
                            None => match sp_string(s, j3) {
                                None => None,
                                Some((v, p)) => Some(
                                    ((ResponseAcc { message: Some(Some(v)), ..acc }), sp_ws(s, p)),
                                ),
                            },
                        }
                    }
                } else {
                    None
                }
            }
        },
    }
}

/// Reading a response member consumes at least one character and
/// stays within the input.
pub proof fn lemma_sp_response_member_advances(s: Seq<char>, i: int, acc: ResponseAcc)
    ensures
        sp_response_member(s, i, acc) matches Some(p) ==> 0 <= i < p.1 <= s.len(),
{
    reveal(sp_response_member);
    lemma_sp_string_advances(s, i);
    match sp_string(s, i) {
        None => {},
        Some((key, j)) => {
            lemma_sp_ws_bounds(s, j);
            let j2 = sp_ws(s, j);
            if j2 < s.len() && s[j2] == ':' {
                lemma_sp_ws_bounds(s, j2 + 1);
                let j3 = sp_ws(s, j2 + 1);
                lemma_sp_string_advances(s, j3);
                lemma_sp_result_obj_advances(s, j3);
                match sp_string(s, j3) {
                    Some((v, p)) => lemma_sp_ws_bounds(s, p),
                    None => {},
                }
                match sp_result_obj(s, j3) {
                    Some((v, p)) => lemma_sp_ws_bounds(s, p),
                    None => {},
                }
                match sp_null(s, j3) {
                    Some(p) => lemma_sp_ws_bounds(s, p),
                    None => {},
                }
            }
        },
    }
}

/// The members of a response object read from `i` (at the first
/// member's key): the gathered fields and the position just past the
/// closing brace.
pub open spec fn sp_response_member_list(s: Seq<char>, i: int, acc: ResponseAcc) -> Option<
    (ResponseAcc, int),
>
    decreases s.len() - i,
{
    match sp_response_member(s, i, acc) {
        None => None,
        Some((acc2, j)) => {
            if j < s.len() && s[j] == ',' {
                proof {
                    lemma_sp_response_member_advances(s, i, acc);
                    lemma_sp_ws_bounds(s, j + 1);
                }
                sp_response_member_list(s, sp_ws(s, j + 1), acc2)
            } else if j < s.len() && s[j] == '}' {
                Some((acc2, j + 1))
            } else {
                None
            }
        },
    }
}

/// The response a finished object stands for: `language`, `version`
/// and `run` must have been seen; a missing or null `compile` is no
/// compile phase, and likewise for `message`.
pub open spec fn finish_response(acc: ResponseAcc) -> Option<ExecResponseView> {
    match (acc.language, acc.version, acc.run) {
        (Some(lang), Some(ver), Some(run)) => Some(
            ExecResponseView {
                language: lang,
                version: ver,
                run: run,
                compile: match acc.compile {
                    Some(c) => c,
                    None => None,
                },
                message: match acc.message {
                    Some(m) => m,
                    None => None,
                },
            },
        ),
        _ => None,
    }
}

/// A whole response object read from `i` (at its opening brace).
pub open spec fn sp_response_obj(s: Seq<char>, i: int) -> Option<(ExecResponseView, int)> {
    if 0 <= i < s.len() && s[i] == '{' {
        let j = sp_ws(s, i + 1);
        if j < s.len() && s[j] == '}' {
            None
        } else {
            match sp_response_member_list(s, j, empty_response_acc()) {
                None => None,
                Some((acc, k)) => match finish_response(acc) {
                    None => None,
                    Some(rv) => Some((rv, k)),
                },
            }
        }
    } else {
        None
    }
}

/// The whole body of an execute reply: one response object with
/// nothing but whitespace around it.
pub open spec fn sp_response(s: Seq<char>) -> Option<ExecResponseView> {
    match sp_response_obj(s, sp_ws(s, 0)) {
        None => None,
        Some((rv, j)) => {
            if sp_ws(s, j) == s.len() {
                Some(rv)
            } else {
                None
            }
        },
    }
}

/// The elements of an array of strings read from `i` (at the first
/// element's opening quote), accumulated onto `acc`: the strings and
/// the position just past the closing bracket.
pub open spec fn sp_string_list(s: Seq<char>, i: int, acc: Seq<Seq<char>>) -> Option<
    (Seq<Seq<char>>, int),
>
    decreases s.len() - i,
{
    match sp_string(s, i) {
        None => None,
        Some((v, j)) => {
            let j2 = sp_ws(s, j);
            if j2 < s.len() && s[j2] == ',' {
                proof {
                    lemma_sp_string_advances(s, i);
                    lemma_sp_ws_bounds(s, j);
                    lemma_sp_ws_bounds(s, j2 + 1);
                }
                sp_string_list(s, sp_ws(s, j2 + 1), acc.push(v))
            } else if j2 < s.len() && s[j2] == ']' {
                Some((acc.push(v), j2 + 1))
            } else {
                None
            }
        },
    }
}

/// Reading a string list consumes at least one character and stays
/// within the input.
pub proof fn lemma_sp_string_list_advances(s: Seq<char>, i: int, acc: Seq<Seq<char>>)
    ensures
        sp_string_list(s, i, acc) matches Some(p) ==> i < p.1 <= s.len(),
    decreases s.len() - i,
{
    lemma_sp_string_advances(s, i);
    match sp_string(s, i) {
        None => {},
        Some((v, j)) => {
            lemma_sp_ws_bounds(s, j);
            let j2 = sp_ws(s, j);
            if j2 < s.len() && s[j2] == ',' {
                lemma_sp_ws_bounds(s, j2 + 1);
                lemma_sp_string_list_advances(s, sp_ws(s, j2 + 1), acc.push(v));
            }
        },
    }
}

/// A whole array of strings read from `i` (at its opening bracket).
pub open spec fn sp_string_array(s: Seq<char>, i: int) -> Option<(Seq<Seq<char>>, int)> {
    if 0 <= i < s.len() && s[i] == '[' {
        let j = sp_ws(s, i + 1);
        if j < s.len() && s[j] == ']' {
            Some((Seq::empty(), j + 1))
        } else {
            sp_string_list(s, j, Seq::empty())
        }
    } else {
        None
    }
}

/// Reading a string array consumes at least one character and stays
/// within the input.
pub proof fn lemma_sp_string_array_advances(s: Seq<char>, i: int)
    ensures
        sp_string_array(s, i) matches Some(p) ==> i < p.1 <= s.len(),
{
    if 0 <= i < s.len() && s[i] == '[' {
        lemma_sp_ws_bounds(s, i + 1);
        let j = sp_ws(s, i + 1);
        if !(j < s.len() && s[j] == ']') {
            lemma_sp_string_list_advances(s, j, Seq::empty());
        }
    }
}

/// The fields of a runtime object gathered so far while reading its
/// members.
pub struct RuntimeAcc {
    pub language: Option<Seq<char>>,
    pub version: Option<Seq<char>>,
    pub aliases: Option<Seq<Seq<char>>>,
}

/// No runtime members read yet.
pub open spec fn empty_runtime_acc() -> RuntimeAcc {
    RuntimeAcc { language: None, version: None, aliases: None }
}

/// One member of a runtime object read from `i` (at the key's opening
/// quote).  A repeated or unrecognized key is rejected.
#[verifier::opaque]
pub open spec fn sp_runtime_member(s: Seq<char>, i: int, acc: RuntimeAcc) -> Option<
    (RuntimeAcc, int),
> {
    match sp_string(s, i) {
        None => None,
        Some((key, j)) => {
            let j2 = sp_ws(s, j);
            if !(j2 < s.len() && s[j2] == ':') {
                None
            } else {
                let j3 = sp_ws(s, j2 + 1);
                if key == "language"@ {
                    if acc.language is Some {
                        None
                    } else {
                        match sp_string(s, j3) {
                            None => None,
                            Some((v, p)) => Some(
                                ((RuntimeAcc { language: Some(v), ..acc }), sp_ws(s, p)),
                            ),
                        }
                    }
                } else if key == "version"@ {
                    if acc.version is Some {
                        None
                    } else {
                        match sp_string(s, j3) {
                            None => None,
                            Some((v, p)) => Some(
                                ((RuntimeAcc { version: Some(v), ..acc }), sp_ws(s, p)),
                            ),
                        }
                    }
                } else if key == "aliases"@ {
                    if acc.aliases is Some {
                        None
                    } else {
                        match sp_string_array(s, j3) {
                            None => None,
                            Some((v, p)) => Some(
                                ((RuntimeAcc { aliases: Some(v), ..acc }), sp_ws(s, p)),
                            ),
                        }
                    }
                } else {
                    None
                }
            }
        },
    }
}

/// Reading a runtime member consumes at least one character and stays
/// within the input.
pub proof fn lemma_sp_runtime_member_advances(s: Seq<char>, i: int, acc: RuntimeAcc)
    ensures
        sp_runtime_member(s, i, acc) matches Some(p) ==> 0 <= i < p.1 <= s.len(),
{
    reveal(sp_runtime_member);
    lemma_sp_string_advances(s, i);
    match sp_string(s, i) {
        None => {},
        Some((key, j)) => {
            lemma_sp_ws_bounds(s, j);
            let j2 = sp_ws(s, j);
            if j2 < s.len() && s[j2] == ':' {
                lemma_sp_ws_bounds(s, j2 + 1);
                let j3 = sp_ws(s, j2 + 1);
                lemma_sp_string_advances(s, j3);
                lemma_sp_string_array_advances(s, j3);
                match sp_string(s, j3) {
                    Some((v, p)) => lemma_sp_ws_bounds(s, p),
                    None => {},
                }
                match sp_string_array(s, j3) {
                    Some((v, p)) => lemma_sp_ws_bounds(s, p),
                    None => {},
                }
            }
        },
    }
}

/// The members of a runtime object read from `i` (at the first
/// member's key): the gathered fields and the position just past the
/// closing brace.
pub open spec fn sp_runtime_member_list(s: Seq<char>, i: int, acc: RuntimeAcc) -> Option<
    (RuntimeAcc, int),
>
    decreases s.len() - i,
{
    match sp_runtime_member(s, i, acc) {
        None => None,
        Some((acc2, j)) => {
            if j < s.len() && s[j] == ',' {
                proof {
                    lemma_sp_runtime_member_advances(s, i, acc);
                    lemma_sp_ws_bounds(s, j + 1);
                }
                sp_runtime_member_list(s, sp_ws(s, j + 1), acc2)
            } else if j < s.len() && s[j] == '}' {
                Some((acc2, j + 1))
            } else {
                None
            }
        },
    }
}

/// Reading a runtime member list consumes at least one character and
/// stays within the input.
pub proof fn lemma_sp_runtime_member_list_advances(s: Seq<char>, i: int, acc: RuntimeAcc)
    ensures
        sp_runtime_member_list(s, i, acc) matches Some(p) ==> i < p.1 <= s.len(),
    decreases s.len() - i,
{
    lemma_sp_runtime_member_advances(s, i, acc);
    match sp_runtime_member(s, i, acc) {
        None => {},
        Some((acc2, j)) => {
            if j < s.len() && s[j] == ',' {
                lemma_sp_ws_bounds(s, j + 1);
                lemma_sp_runtime_member_list_advances(s, sp_ws(s, j + 1), acc2);
            }
        },
    }
}

/// The runtime a finished object stands for: all three fields must
/// have been seen.
pub open spec fn finish_runtime(acc: RuntimeAcc) -> Option<RuntimeView> {
    match (acc.language, acc.version, acc.aliases) {
        (Some(lang), Some(ver), Some(al)) => Some(
            RuntimeView { language: lang, version: ver, aliases: al },
        ),
        _ => None,
    }
}

/// A whole runtime object read from `i` (at its opening brace).
pub open spec fn sp_runtime_obj(s: Seq<char>, i: int) -> Option<(RuntimeView, int)> {
    if 0 <= i < s.len() && s[i] == '{' {
        let j = sp_ws(s, i + 1);
        if j < s.len() && s[j] == '}' {
            None
        } else {
            match sp_runtime_member_list(s, j, empty_runtime_acc()) {
                None => None,
                Some((acc, k)) => match finish_runtime(acc) {
                    None => None,
                    Some(rv) => Some((rv, k)),
                },
            }
        }
    } else {
        None
    }
}

/// Reading a runtime object consumes at least one character and stays
/// within the input.
pub proof fn lemma_sp_runtime_obj_advances(s: Seq<char>, i: int)
    ensures
        sp_runtime_obj(s, i) matches Some(p) ==> i < p.1 <= s.len(),
{
    if 0 <= i < s.len() && s[i] == '{' {
        lemma_sp_ws_bounds(s, i + 1);
        let j = sp_ws(s, i + 1);
        if !(j < s.len() && s[j] == '}') {
            lemma_sp_runtime_member_list_advances(s, j, empty_runtime_acc());
        }
    }
}

/// The elements of an array of runtime objects read from `i` (at the
/// first element's opening brace), accumulated onto `acc`.
pub open spec fn sp_runtime_list(s: Seq<char>, i: int, acc: Seq<RuntimeView>) -> Option<
    (Seq<RuntimeView>, int),
>
    decreases s.len() - i,
{
    match sp_runtime_obj(s, i) {
        None => None,
        Some((v, j)) => {
            let j2 = sp_ws(s, j);
            if j2 < s.len() && s[j2] == ',' {
                proof {
                    lemma_sp_runtime_obj_advances(s, i);
                    lemma_sp_ws_bounds(s, j);
                    lemma_sp_ws_bounds(s, j2 + 1);
                }
                sp_runtime_list(s, sp_ws(s, j2 + 1), acc.push(v))
            } else if j2 < s.len() && s[j2] == ']' {
                Some((acc.push(v), j2 + 1))
            } else {
                None
            }
        },
    }
}

/// A whole array of runtime objects read from `i` (at its opening
/// bracket).
pub open spec fn sp_runtimes_array(s: Seq<char>, i: int) -> Option<(Seq<RuntimeView>, int)> {
    if 0 <= i < s.len() && s[i] == '[' {
        let j = sp_ws(s, i + 1);
        if j < s.len() && s[j] == ']' {
            Some((Seq::empty(), j + 1))
        } else {
            sp_runtime_list(s, j, Seq::empty())
        }
    } else {
        None
    }
}

/// The whole body of a runtime catalog reply: one array of runtime
/// objects with nothing but whitespace around it.
pub open spec fn sp_runtimes(s: Seq<char>) -> Option<Seq<RuntimeView>> {
    match sp_runtimes_array(s, sp_ws(s, 0)) {
        None => None,
        Some((rv, j)) => {
            if sp_ws(s, j) == s.len() {
                Some(rv)
            } else {
                None
            }
        },
    }
}

/// The view of an optional owned string.
spec fn opt_str_view(o: Option<String>) -> Option<Seq<char>> {
    match o {
        Some(s) => Some(s@),
        None => None,
    }
}

/// The outcome fields gathered by the executable reader, as a
/// [`ResultAcc`].
spec fn result_acc_of(
    stdout: Option<String>,
    stderr: Option<String>,
    output: Option<String>,
    code: Option<isize>,
    signal: Option<Option<String>>,
) -> ResultAcc {
    ResultAcc {
        stdout: opt_str_view(stdout),
        stderr: opt_str_view(stderr),
        output: opt_str_view(output),
        code: match code {
            Some(c) => Some(c as int),
            None => None,
        },
        signal: match signal {
            Some(sg) => Some(opt_str_view(sg)),
            None => None,
        },
    }
}

/// The outcome fields gathered so far by the executable reader.
struct ResultFields {
    stdout: Option<String>,
    stderr: Option<String>,
    output: Option<String>,
    code: Option<isize>,
    signal: Option<Option<String>>,
}

/// The [`ResultAcc`] a [`ResultFields`] stands for.
spec fn result_fields_view(f: ResultFields) -> ResultAcc {
    result_acc_of(f.stdout, f.stderr, f.output, f.code, f.signal)
}

/// The outcome a finished set of fields stands for; see
/// [`finish_result`].
fn finish_result_exec(fields: ResultFields) -> (r: Option<ExecResult>)
    ensures
        match r {
            Some(res) => finish_result(result_fields_view(fields)) == Some(res@),
            None => finish_result(result_fields_view(fields)) is None,
        },
{
    let ResultFields { stdout, stderr, output, code, signal } = fields;
    match (stdout, stderr, output, code) {
        (Some(so), Some(se), Some(op), Some(cd)) => {
            let res = ExecResult {
                stdout: so,
                stderr: se,
                output: op,
                code: cd,
                signal: match signal {
                    Some(sg) => sg,
                    None => None,
                },
            };
            Some(res)
        },
        _ => None,
    }
}

/// Reads one member of an outcome object starting at `j`; see
/// [`sp_result_member`].
#[verifier::rlimit(100)]
fn parse_result_member(v: &Vec<char>, j: usize, acc: ResultFields) -> (r: Option<
    (ResultFields, usize),
>)
    requires
        j <= v@.len(),
    ensures
        match r {
            Some(p) => sp_result_member(v@, j as int, result_fields_view(acc)) == Some(
                (result_fields_view(p.0), p.1 as int),
            ) && j < p.1 <= v@.len(),
            None => sp_result_member(v@, j as int, result_fields_view(acc)) is None,
        },
{
    proof {
        reveal(sp_result_member);
        lemma_sp_result_member_advances(v@, j as int, result_fields_view(acc));
    }
    let n = v.len();
    let mut acc = acc;
    let (key, j1) = match parse_string(v, j) {
        Some(p) => p,
        None => {
            return None;
        },
    };
    let j2 = skip_ws(v, j1);
    if j2 >= n || v[j2] != ':' {
        return None;
    }
    let j3 = skip_ws(v, j2 + 1);
    if key == String::from_str("stdout") {
        if acc.stdout.is_some() {
            return None;
        }
        match parse_string(v, j3) {
            None => None,
            Some((val, p)) => {
                acc.stdout = Some(val);
                Some((acc, skip_ws(v, p)))
            },
        }
    } else if key == String::from_str("stderr") {
        if acc.stderr.is_some() {
            return None;
        }
        match parse_string(v, j3) {
            None => None,
            Some((val, p)) => {
                acc.stderr = Some(val);
                Some((acc, skip_ws(v, p)))
            },
        }
    } else if key == String::from_str("output") {
        if acc.output.is_some() {
            return None;
        }
        match parse_string(v, j3) {
            None => None,
            Some((val, p)) => {
                acc.output = Some(val);
                Some((acc, skip_ws(v, p)))
            },
        }
    } else if key == String::from_str("code") {
        if acc.code.is_some() {
            return None;
        }
        match parse_int(v, j3) {
            None => None,
            Some((val, p)) => {
                acc.code = Some(val);
                Some((acc, skip_ws(v, p)))
            },
        }
    } else if key == String::from_str("signal") {
        if acc.signal.is_some() {
            return None;
        }
        match parse_null(v, j3) {
            Some(p) => {
                acc.signal = Some(None);
                Some((acc, skip_ws(v, p)))
            },
            None => match parse_string(v, j3) {
                None => None,
                Some((val, p)) => {
                    acc.signal = Some(Some(val));
                    Some((acc, skip_ws(v, p)))
                },
            },
        }
    } else {
        None
    }
}

/// Reads a whole outcome object starting at `i`; see
/// [`sp_result_obj`].
#[verifier::rlimit(100)]
#[verifier::spinoff_prover]
fn parse_result_obj(v: &Vec<char>, i: usize) -> (r: Option<(ExecResult, usize)>)
    requires
        i <= v@.len(),
    ensures
        match r {
            Some(p) => sp_result_obj(v@, i as int) == Some((p.0@, p.1 as int)) && i < p.1
                <= v@.len(),
            None => sp_result_obj(v@, i as int) is None,
        },
{
    let n = v.len();
    if i >= n || v[i] != '{' {
        return None;
    }
    let j0 = skip_ws(v, i + 1);
    if j0 < n && v[j0] == '}' {
        return None;
    }
    let mut fields = ResultFields {
        stdout: None,
        stderr: None,
        output: None,
        code: None,
        signal: None,
    };
    let mut j = j0;
    loop
        invariant
            i < n,
            n == v@.len(),
            v@[i as int] == '{',
            j0 as int == sp_ws(v@, i as int + 1),
            !(j0 < n && v@[j0 as int] == '}'),
            i < j <= n,
            sp_result_member_list(v@, j0 as int, empty_result_acc()) == sp_result_member_list(
                v@,
                j as int,
                result_fields_view(fields),
            ),
        decreases n - j,
    {
        let (new_fields, jm) = match parse_result_member(v, j, fields) {
            Some(p) => p,
            None => {
                return None;
            },
        };
        fields = new_fields;
        let ghost acc_new = result_fields_view(fields);
        if jm < n && v[jm] == ',' {
            j = skip_ws(v, jm + 1);
            proof {
                assert(sp_result_member_list(v@, j0 as int, empty_result_acc())
                    == sp_result_member_list(v@, j as int, acc_new));
            }
        } else if jm < n && v[jm] == '}' {
            let j_end = jm + 1;
            proof {
                assert(sp_result_member_list(v@, j0 as int, empty_result_acc()) == Some(
                    (acc_new, j_end as int),
                ));
            }
            match finish_result_exec(fields) {
                Some(res) => {
                    proof {
                        assert(sp_result_obj(v@, i as int) == Some((res@, j_end as int)));
                    }
                    return Some((res, j_end));
                },
                None => {
                    return None;
                },
            }
        } else {
            return None;
        }
    }
}

/// The response fields gathered so far by the executable reader.
struct ResponseFields {
    language: Option<String>,
    version: Option<String>,
    run: Option<ExecResult>,
    compile: Option<Option<ExecResult>>,
    message: Option<Option<String>>,
}

/// The [`ResponseAcc`] a [`ResponseFields`] stands for.
spec fn response_fields_view(f: ResponseFields) -> ResponseAcc {
    ResponseAcc {
        language: opt_str_view(f.language),
        version: opt_str_view(f.version),
        run: match f.run {
            Some(r) => Some(r@),
            None => None,
        },
        compile: match f.compile {
            Some(Some(r)) => Some(Some(r@)),
            Some(None) => Some(None),
            None => None,
        },
        message: match f.message {
            Some(m) => Some(opt_str_view(m)),
            None => None,
        },
    }
}

/// The response a finished set of fields stands for; see
/// [`finish_response`].
fn finish_response_exec(fields: ResponseFields) -> (r: Option<ExecResponse>)
    ensures
        match r {
            Some(resp) => finish_response(response_fields_view(fields)) == Some(resp@),
            None => finish_response(response_fields_view(fields)) is None,
        },
{
    let ResponseFields { language, version, run, compile, message } = fields;
    match (language, version, run) {
        (Some(lang), Some(ver), Some(rn)) => {
            let resp = ExecResponse {
                language: lang,
                version: ver,
                run: rn,
                compile: match compile {
                    Some(c) => c,
                    None => None,
                },
                message: match message {
                    Some(m) => m,
                    None => None,
                },
            };
            Some(resp)
        },
        _ => None,
    }
}

/// Reads one member of a response object starting at `j`; see
/// [`sp_response_member`].
#[verifier::rlimit(100)]
#[verifier::spinoff_prover]
fn parse_response_member(v: &Vec<char>, j: usize, acc: ResponseFields) -> (r: Option<
    (ResponseFields, usize),
>)
    requires
        j <= v@.len(),
    ensures
        match r {
            Some(p) => sp_response_member(v@, j as int, response_fields_view(acc)) == Some(
                (response_fields_view(p.0), p.1 as int),
            ) && j < p.1 <= v@.len(),
            None => sp_response_member(v@, j as int, response_fields_view(acc)) is None,
        },
{
    proof {
        reveal(sp_response_member);
        lemma_sp_response_member_advances(v@, j as int, response_fields_view(acc));
    }
    let n = v.len();
    let mut acc = acc;
    let (key, j1) = match parse_string(v, j) {
        Some(p) => p,
        None => {
            return None;
        },
    };
    let j2 = skip_ws(v, j1);
    if j2 >= n || v[j2] != ':' {
        return None;
    }
    let j3 = skip_ws(v, j2 + 1);
    if key == String::from_str("language") {
        if acc.language.is_some() {
            return None;
        }
        match parse_string(v, j3) {
            None => None,
            Some((val, p)) => {
                acc.language = Some(val);
                Some((acc, skip_ws(v, p)))
            },
        }
    } else if key == String::from_str("version") {
        if acc.version.is_some() {
            return None;
        }
        match parse_string(v, j3) {
            None => None,
            Some((val, p)) => {
                acc.version = Some(val);
                Some((acc, skip_ws(v, p)))
            },
        }
    } else if key == String::from_str("run") {
        if acc.run.is_some() {
            return None;
        }
        match parse_result_obj(v, j3) {
            None => None,
            Some((val, p)) => {
                acc.run = Some(val);
                Some((acc, skip_ws(v, p)))
            },
        }
    } else if key == String::from_str("compile") {
        if acc.compile.is_some() {
            return None;
        }
        match parse_null(v, j3) {
            Some(p) => {
                acc.compile = Some(None);
                Some((acc, skip_ws(v, p)))
            },
            None => match parse_result_obj(v, j3) {
                None => None,
                Some((val, p)) => {
                    acc.compile = Some(Some(val));
                    Some((acc, skip_ws(v, p)))
                },
            },
        }
    } else if key == String::from_str("message") {
        if acc.message.is_some() {
            return None;
        }
        match parse_null(v, j3) {
            Some(p) => {
                acc.message = Some(None);
                Some((acc, skip_ws(v, p)))
            },
            None => match parse_string(v, j3) {
                None => None,
                Some((val, p)) => {
                    acc.message = Some(Some(val));
                    Some((acc, skip_ws(v, p)))
                },
            },
        }
    } else {
        None
    }
}

/// Reads a whole response object starting at `i`; see
/// [`sp_response_obj`].
#[verifier::rlimit(100)]
#[verifier::spinoff_prover]
fn parse_response_obj(v: &Vec<char>, i: usize) -> (r: Option<(ExecResponse, usize)>)
    requires
        i <= v@.len(),
    ensures
        match r {
            Some(p) => sp_response_obj(v@, i as int) == Some((p.0@, p.1 as int)) && i < p.1
                <= v@.len(),
            None => sp_response_obj(v@, i as int) is None,
        },
{
    let n = v.len();
    if i >= n || v[i] != '{' {
        return None;
    }
    let j0 = skip_ws(v, i + 1);
    if j0 < n && v[j0] == '}' {
        return None;
    }
    let mut fields = ResponseFields {
        language: None,
        version: None,
        run: None,
        compile: None,
        message: None,
    };
    let mut j = j0;
    loop
        invariant
            i < n,
            n == v@.len(),
            v@[i as int] == '{',
            j0 as int == sp_ws(v@, i as int + 1),
            !(j0 < n && v@[j0 as int] == '}'),
            i < j <= n,
            sp_response_member_list(v@, j0 as int, empty_response_acc())
                == sp_response_member_list(v@, j as int, response_fields_view(fields)),
        decreases n - j,
    {
        let (new_fields, jm) = match parse_response_member(v, j, fields) {
            Some(p) => p,
            None => {
                return None;
            },
        };
        fields = new_fields;
        let ghost acc_new = response_fields_view(fields);
        if jm < n && v[jm] == ',' {
            j = skip_ws(v, jm + 1);
            proof {
                assert(sp_response_member_list(v@, j0 as int, empty_response_acc())
                    == sp_response_member_list(v@, j as int, acc_new));
            }
        } else if jm < n && v[jm] == '}' {
            let j_end = jm + 1;
            proof {
                assert(sp_response_member_list(v@, j0 as int, empty_response_acc()) == Some(
                    (acc_new, j_end as int),
                ));
            }
            match finish_response_exec(fields) {
                Some(resp) => {
                    proof {
                        assert(sp_response_obj(v@, i as int) == Some((resp@, j_end as int)));
                    }
                    return Some((resp, j_end));
                },
                None => {
                    return None;
                },
            }
        } else {
            return None;
        }
    }
}

impl ExecResponse {
    /// Reads a whole execute reply body, exactly as [`sp_response`]
    /// states it: `None` for anything malformed.
    pub fn from_json(body: &str) -> (r: Option<ExecResponse>)
        ensures
            match r {
                Some(resp) => sp_response(body@) == Some(resp@),
                None => sp_response(body@) is None,
            },
    {
        let v = crate::text::chars_of(body);
        let i = skip_ws(&v, 0);
        match parse_response_obj(&v, i) {
            None => None,
            Some((resp, j)) => {
                let k = skip_ws(&v, j);
                if k == v.len() {
                    Some(resp)
                } else {
                    None
                }
            },
        }
    }
}

/// Reads a whole array of strings starting at `i`; see
/// [`sp_string_array`].
#[verifier::rlimit(100)]
#[verifier::spinoff_prover]
fn parse_string_array(v: &Vec<char>, i: usize) -> (r: Option<(Vec<String>, usize)>)
    requires
        i <= v@.len(),
    ensures
        match r {
            Some(p) => sp_string_array(v@, i as int) == Some(
                (p.0@.map_values(|s: String| s@), p.1 as int),
            ) && i < p.1 <= v@.len(),
            None => sp_string_array(v@, i as int) is None,
        },
{
    let n = v.len();
    if i >= n || v[i] != '[' {
        return None;
    }
    let j0 = skip_ws(v, i + 1);
    if j0 < n && v[j0] == ']' {
        let out: Vec<String> = Vec::new();
        proof {
            assert(out@.map_values(|s: String| s@) =~= Seq::<Seq<char>>::empty());
        }
        return Some((out, j0 + 1));
    }
    let mut out: Vec<String> = Vec::new();
    let ghost mut acc: Seq<Seq<char>> = Seq::empty();
    let mut j = j0;
    loop
        invariant
            i < n,
            n == v@.len(),
            v@[i as int] == '[',
            j0 as int == sp_ws(v@, i as int + 1),
            !(j0 < n && v@[j0 as int] == ']'),
            i < j <= n,
            acc.len() == out@.len(),
            forall|q: int| 0 <= q < acc.len() ==> acc[q] == out@[q]@,
            sp_string_list(v@, j0 as int, Seq::empty()) == sp_string_list(v@, j as int, acc),
        decreases n - j,
    {
        let (val, j1) = match parse_string(v, j) {
            Some(p) => p,
            None => {
                return None;
            },
        };
        let j2 = skip_ws(v, j1);
        if j2 < n && v[j2] == ',' {
            proof {
                acc = acc.push(val@);
            }
            out.push(val);
            j = skip_ws(v, j2 + 1);
        } else if j2 < n && v[j2] == ']' {
            proof {
                acc = acc.push(val@);
                assert(sp_string_list(v@, j0 as int, Seq::empty()) == Some(
                    (acc, j2 as int + 1),
                ));
            }
            out.push(val);
            proof {
                assert(out@.map_values(|s: String| s@) =~= acc);
            }
            return Some((out, j2 + 1));
        } else {
            return None;
        }
    }
}

/// The runtime fields gathered so far by the executable reader.
struct RuntimeFields {
    language: Option<String>,
    version: Option<String>,
    aliases: Option<Vec<String>>,
}

/// The [`RuntimeAcc`] a [`RuntimeFields`] stands for.
spec fn runtime_fields_view(f: RuntimeFields) -> RuntimeAcc {
    RuntimeAcc {
        language: opt_str_view(f.language),
        version: opt_str_view(f.version),
        aliases: match f.aliases {
            Some(a) => Some(a@.map_values(|s: String| s@)),
            None => None,
        },
    }
}

/// The runtime a finished set of fields stands for; see
/// [`finish_runtime`].
fn finish_runtime_exec(fields: RuntimeFields) -> (r: Option<Runtime>)
    ensures
        match r {
            Some(rt) => finish_runtime(runtime_fields_view(fields)) == Some(rt@),
            None => finish_runtime(runtime_fields_view(fields)) is None,
        },
{
    let RuntimeFields { language, version, aliases } = fields;
    match (language, version, aliases) {
        (Some(lang), Some(ver), Some(al)) => {
            let rt = Runtime { language: lang, version: ver, aliases: al };
            Some(rt)
        },
        _ => None,
    }
}

/// Reads one member of a runtime object starting at `j`; see
/// [`sp_runtime_member`].
#[verifier::rlimit(100)]
#[verifier::spinoff_prover]
fn parse_runtime_member(v: &Vec<char>, j: usize, acc: RuntimeFields) -> (r: Option<
    (RuntimeFields, usize),
>)
    requires
        j <= v@.len(),
    ensures
        match r {
            Some(p) => sp_runtime_member(v@, j as int, runtime_fields_view(acc)) == Some(
                (runtime_fields_view(p.0), p.1 as int),
            ) && j < p.1 <= v@.len(),
            None => sp_runtime_member(v@, j as int, runtime_fields_view(acc)) is None,
        },
{
    proof {
        reveal(sp_runtime_member);
        lemma_sp_runtime_member_advances(v@, j as int, runtime_fields_view(acc));
    }
    let n = v.len();
    let mut acc = acc;
    let (key, j1) = match parse_string(v, j) {
        Some(p) => p,
        None => {
            return None;
        },
    };
    let j2 = skip_ws(v, j1);
    if j2 >= n || v[j2] != ':' {
        return None;
    }
    let j3 = skip_ws(v, j2 + 1);
    if key == String::from_str("language") {
        if acc.language.is_some() {
            return None;
        }
        match parse_string(v, j3) {
            None => None,
            Some((val, p)) => {
                acc.language = Some(val);
                Some((acc, skip_ws(v, p)))
            },
        }
    } else if key == String::from_str("version") {
        if acc.version.is_some() {
            return None;
        }
        match parse_string(v, j3) {
            None => None,
            Some((val, p)) => {
                acc.version = Some(val);
                Some((acc, skip_ws(v, p)))
            },
        }
    } else if key == String::from_str("aliases") {
        if acc.aliases.is_some() {
            return None;
        }
        match parse_string_array(v, j3) {
            None => None,
            Some((val, p)) => {
                acc.aliases = Some(val);
                Some((acc, skip_ws(v, p)))
            },
        }
    } else {
        None
    }
}

/// Reads a whole runtime object starting at `i`; see
/// [`sp_runtime_obj`].
#[verifier::rlimit(100)]
#[verifier::spinoff_prover]
fn parse_runtime_obj(v: &Vec<char>, i: usize) -> (r: Option<(Runtime, usize)>)
    requires
        i <= v@.len(),
    ensures
        match r {
            Some(p) => sp_runtime_obj(v@, i as int) == Some((p.0@, p.1 as int)) && i < p.1
                <= v@.len(),
            None => sp_runtime_obj(v@, i as int) is None,
        },
{
    let n = v.len();
    if i >= n || v[i] != '{' {
        return None;
    }
    let j0 = skip_ws(v, i + 1);
    if j0 < n && v[j0] == '}' {
        return None;
    }
    let mut fields = RuntimeFields { language: None, version: None, aliases: None };
    let mut j = j0;
    loop
        invariant
            i < n,
            n == v@.len(),
            v@[i as int] == '{',
            j0 as int == sp_ws(v@, i as int + 1),
            !(j0 < n && v@[j0 as int] == '}'),
            i < j <= n,
            sp_runtime_member_list(v@, j0 as int, empty_runtime_acc())
                == sp_runtime_member_list(v@, j as int, runtime_fields_view(fields)),
        decreases n - j,
    {
        let (new_fields, jm) = match parse_runtime_member(v, j, fields) {
            Some(p) => p,
            None => {
                return None;
            },
        };
        fields = new_fields;
        let ghost acc_new = runtime_fields_view(fields);
        if jm < n && v[jm] == ',' {
            j = skip_ws(v, jm + 1);
            proof {
                assert(sp_runtime_member_list(v@, j0 as int, empty_runtime_acc())
                    == sp_runtime_member_list(v@, j as int, acc_new));
            }
        } else if jm < n && v[jm] == '}' {
            let j_end = jm + 1;
            proof {
                assert(sp_runtime_member_list(v@, j0 as int, empty_runtime_acc()) == Some(
                    (acc_new, j_end as int),
                ));
            }
            match finish_runtime_exec(fields) {
                Some(rt) => {
                    proof {
                        assert(sp_runtime_obj(v@, i as int) == Some((rt@, j_end as int)));
                    }
                    return Some((rt, j_end));
                },
                None => {
                    return None;
                },
            }
        } else {
            return None;
        }
    }
}

/// Reads a whole runtime catalog body, exactly as [`sp_runtimes`]
/// states it: `None` for anything malformed.
#[verifier::rlimit(100)]
#[verifier::spinoff_prover]
pub fn parse_runtimes(body: &str) -> (r: Option<Vec<Runtime>>)
    ensures
        match r {
            Some(list) => sp_runtimes(body@) == Some(list@.map_values(|rt: Runtime| rt@)),
            None => sp_runtimes(body@) is None,
        },
{
    let v = crate::text::chars_of(body);
    let n = v.len();
    let i = skip_ws(&v, 0);
    if i >= n || v[i] != '[' {
        return None;
    }
    let j0 = skip_ws(&v, i + 1);
    if j0 < n && v[j0] == ']' {
        let k = skip_ws(&v, j0 + 1);
        if k == n {
            let out: Vec<Runtime> = Vec::new();
            proof {
                assert(out@.map_values(|rt: Runtime| rt@) =~= Seq::<RuntimeView>::empty());
            }
            return Some(out);
        } else {
            return None;
        }
    }
    let mut out: Vec<Runtime> = Vec::new();
    let ghost mut acc: Seq<RuntimeView> = Seq::empty();
    let mut j = j0;
    loop
        invariant
            i < n,
            n == v@.len(),
            v@ == body@,
            i as int == sp_ws(v@, 0),
            v@[i as int] == '[',
            j0 as int == sp_ws(v@, i as int + 1),
            !(j0 < n && v@[j0 as int] == ']'),
            i < j <= n,
            acc.len() == out@.len(),
            forall|q: int| 0 <= q < acc.len() ==> acc[q] == out@[q]@,
            sp_runtime_list(v@, j0 as int, Seq::empty()) == sp_runtime_list(v@, j as int, acc),
        decreases n - j,
    {
        let (rt, j1) = match parse_runtime_obj(&v, j) {
            Some(p) => p,
            None => {
                return None;
            },
        };
        let j2 = skip_ws(&v, j1);
        if j2 < n && v[j2] == ',' {
            proof {
                acc = acc.push(rt@);
            }
            out.push(rt);
            j = skip_ws(&v, j2 + 1);
        } else if j2 < n && v[j2] == ']' {
            proof {
                acc = acc.push(rt@);
                assert(sp_runtime_list(v@, j0 as int, Seq::empty()) == Some(
                    (acc, j2 as int + 1),
                ));
            }
            out.push(rt);
            let k = skip_ws(&v, j2 + 1);
            if k == n {
                proof {
                    assert(out@.map_values(|r2: Runtime| r2@) =~= acc);
                    assert(sp_runtimes(body@) == Some(acc));
                }
                return Some(out);
            } else {
                return None;
            }
        } else {
            return None;
        }
    }
}

/// Appends the JSON object standing for one source file.
fn write_file(out: &mut String, f: &File)
    ensures
        final(out)@ == old(out)@ + file_json(f@),
{
    out.append("{\"name\":");
    write_json_string(out, f.name.as_str());
    out.append(",\"content\":");
    write_json_string(out, f.content.as_str());
    out.append(",\"encoding\":");
    write_json_string(out, f.encoding.as_str());
    out.append("}");
    proof {
        assert(out@ =~= old(out)@ + file_json(f@));
    }
}

/// Appends the JSON array of file objects.
fn write_files(out: &mut String, files: &Vec<File>)
    ensures
        final(out)@ == old(out)@ + files_json(files@.map_values(|f: File| f@)),
{
    let ghost fsv = files@.map_values(|f: File| f@);
    let n = files.len();
    if n == 0 {
        out.append("[]");
        proof {
            assert(out@ =~= old(out)@ + files_json(fsv));
        }
        return ;
    }
    crate::text::push_char(out, '[');
    write_file(out, &files[0]);
    proof {
        assert(fsv[0] == files@[0]@);
        assert(fsv.subrange(1, 1) =~= Seq::<FileView>::empty());
        assert(out@ =~= old(out)@ + seq!['['] + file_json(fsv[0]) + files_rest(
            fsv.subrange(1, 1),
        ));
    }
    let mut i: usize = 1;
    while i < n
        invariant
            1 <= i <= n,
            n == files@.len(),
            fsv == files@.map_values(|f: File| f@),
            fsv.len() == n,
            out@ =~= old(out)@ + seq!['['] + file_json(fsv[0]) + files_rest(
                fsv.subrange(1, i as int),
            ),
        decreases n - i,
    {
        crate::text::push_char(out, ',');
        write_file(out, &files[i]);
        proof {
            assert(files@[i as int]@ == fsv[i as int]);
            assert(fsv.subrange(1, i as int + 1) =~= fsv.subrange(1, i as int).push(
                fsv[i as int],
            ));
            lemma_files_rest_push(fsv.subrange(1, i as int), fsv[i as int]);
        }
        i = i + 1;
        proof {
            assert(out@ =~= old(out)@ + seq!['['] + file_json(fsv[0]) + files_rest(
                fsv.subrange(1, i as int),
            ));
        }
    }
    crate::text::push_char(out, ']');
    proof {
        assert(fsv.subrange(1, n as int) =~= fsv.drop_first());
        assert(out@ =~= old(out)@ + files_json(fsv));
    }
}

/// Appends the JSON array of argument strings.
fn write_strings(out: &mut String, xs: &Vec<String>)
    ensures
        final(out)@ == old(out)@ + strings_json(xs@.map_values(|s: String| s@)),
{
    let ghost xsv = xs@.map_values(|s: String| s@);
    let n = xs.len();
    if n == 0 {
        out.append("[]");
        proof {
            assert(out@ =~= old(out)@ + strings_json(xsv));
        }
        return ;
    }
    crate::text::push_char(out, '[');
    write_json_string(out, xs[0].as_str());
    proof {
        assert(xsv[0] == xs@[0]@);
        assert(xsv.subrange(1, 1) =~= Seq::<Seq<char>>::empty());
        assert(out@ =~= old(out)@ + seq!['['] + json_string(xsv[0]) + strings_rest(
            xsv.subrange(1, 1),
        ));
    }
    let mut i: usize = 1;
    while i < n
        invariant
            1 <= i <= n,
            n == xs@.len(),
            xsv == xs@.map_values(|s: String| s@),
            xsv.len() == n,
            out@ =~= old(out)@ + seq!['['] + json_string(xsv[0]) + strings_rest(
                xsv.subrange(1, i as int),
            ),
        decreases n - i,
    {
        crate::text::push_char(out, ',');
        write_json_string(out, xs[i].as_str());
        proof {
            assert(xs@[i as int]@ == xsv[i as int]);
            assert(xsv.subrange(1, i as int + 1) =~= xsv.subrange(1, i as int).push(
                xsv[i as int],
            ));
            lemma_strings_rest_push(xsv.subrange(1, i as int), xsv[i as int]);
        }
        i = i + 1;
        proof {
            assert(out@ =~= old(out)@ + seq!['['] + json_string(xsv[0]) + strings_rest(
                xsv.subrange(1, i as int),
            ));
        }
    }
    crate::text::push_char(out, ']');
    proof {
        assert(xsv.subrange(1, n as int) =~= xsv.drop_first());
        assert(out@ =~= old(out)@ + strings_json(xsv));
    }
}

impl Executor {
    /// The JSON body of this request, exactly as [`request_json`]
    /// states it.
    pub fn to_json(&self) -> (r: String)
        ensures
            r@ == request_json(self@),
    {
        let mut out = String::new();
        out.append("{\"language\":");
        write_json_string(&mut out, self.language.as_str());
        out.append(",\"version\":");
        write_json_string(&mut out, self.version.as_str());
        out.append(",\"files\":");
        write_files(&mut out, &self.files);
        out.append(",\"stdin\":");
        write_json_string(&mut out, self.stdin.as_str());
        out.append(",\"args\":");
        write_strings(&mut out, &self.args);
        out.append(",\"compile_timeout\":");
        write_dec(&mut out, self.compile_timeout);
        out.append(",\"run_timeout\":");
        write_dec(&mut out, self.run_timeout);
        out.append(",\"compile_memory_limit\":");
        write_dec(&mut out, self.compile_memory_limit);
        out.append(",\"run_memory_limit\":");
        write_dec(&mut out, self.run_memory_limit);
        out.append("}");
        proof {
            assert(out@ =~= request_json(self@));
        }
        out
    }
}

} // verus!

