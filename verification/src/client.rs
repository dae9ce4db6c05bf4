//! The client's command lists: checking `[METHOD data ...]` pairs, and
//! turning a bracketed list into the arguments of a `curl` call.
use vstd::prelude::*;
use crate::text::{str_eq, string_views, strip_leading, strip_trailing, trim_end_char, trim_start_char};

verus! {

/// The method is one of the five that the client knows.
pub open spec fn known_method(m: Seq<char>) -> bool {
    m == "POST"@ || m == "GET"@ || m == "HEAD"@ || m == "PUT"@ || m == "DELETE"@
}

/// The lines printed for one pair: the method and the data under the
/// method's name, or an error line for an unknown method.
pub open spec fn method_lines(method: Seq<char>, data: Seq<char>) -> Seq<Seq<char>> {
    if known_method(method) {
        seq![method + " METHOD: "@ + method, method + " DATA: "@ + data]
    } else {
        seq!["ERROR: Invalid HTTP method."@]
    }
}

/// The lines printed for the first `pairs` pairs of `commands`: each pair is
/// a method (leading `[` removed) and its data.
pub open spec fn report_lines(commands: Seq<Seq<char>>, pairs: nat) -> Seq<Seq<char>>
    decreases pairs,
{
    if pairs == 0 {
        Seq::empty()
    } else {
        let k = pairs - 1;
        report_lines(commands, k as nat) + method_lines(
            strip_leading(commands[2 * k], '['),
            commands[2 * k + 1],
        )
    }
}

/// The five method names that the client reports on.
pub open spec fn is_method_name(m: Seq<char>) -> bool {
    ||| m == "POST"@
    ||| m == "GET"@
    ||| m == "HEAD"@
    ||| m == "PUT"@
    ||| m == "DELETE"@
}

/// The method word of the `k`-th pair, without its leading `[`.
pub open spec fn pair_method(commands: Seq<Seq<char>>, k: int) -> Seq<char> {
    strip_leading(commands[2 * k], '[')
}

/// Where the lines of the `k`-th pair start: two lines for each earlier pair
/// with a method name, one for each other earlier pair.
pub open spec fn pair_offset(commands: Seq<Seq<char>>, k: nat) -> nat
    decreases k,
{
    if k == 0 {
        0
    } else {
        pair_offset(commands, (k - 1) as nat) + (if is_method_name(
            pair_method(commands, k - 1),
        ) {
            2nat
        } else {
            1nat
        })
    }
}

proof fn lemma_pair_offset_grows(commands: Seq<Seq<char>>, k: nat, p: nat)
    requires
        k <= p,
    ensures
        pair_offset(commands, k) <= pair_offset(commands, p),
        k < p ==> pair_offset(commands, k) + (if is_method_name(pair_method(commands, k as int)) {
            2nat
        } else {
            1nat
        }) <= pair_offset(commands, p),
    decreases p,
{
    if k < p {
        lemma_pair_offset_grows(commands, k, (p - 1) as nat);
    }
}

/// What the report says of each pair: a pair whose method word (without
/// `[`) is POST, GET, HEAD, PUT or DELETE gets exactly the two lines
/// "M METHOD: M" and "M DATA: data" at its place; any other pair gets the
/// line "ERROR: Invalid HTTP method."; and the report holds nothing else.
pub proof fn lemma_report_pairs(commands: Seq<Seq<char>>, pairs: nat)
    requires
        2 * pairs <= commands.len(),
    ensures
        report_lines(commands, pairs).len() == pair_offset(commands, pairs),
        forall|k: int|
            0 <= k < pairs && is_method_name(#[trigger] pair_method(commands, k)) ==> {
                &&& report_lines(commands, pairs)[pair_offset(commands, k as nat) as int]
                    == pair_method(commands, k) + " METHOD: "@ + pair_method(commands, k)
                &&& report_lines(commands, pairs)[pair_offset(commands, k as nat) + 1int]
                    == pair_method(commands, k) + " DATA: "@ + commands[2 * k + 1]
            },
        forall|k: int|
            0 <= k < pairs && !is_method_name(#[trigger] pair_method(commands, k))
                ==> report_lines(commands, pairs)[pair_offset(commands, k as nat) as int]
                == "ERROR: Invalid HTTP method."@,
    decreases pairs,
{
    if pairs > 0 {
        let p = (pairs - 1) as nat;
        lemma_report_pairs(commands, p);
        let prev = report_lines(commands, p);
        let r = report_lines(commands, pairs);
        assert(r == prev + method_lines(pair_method(commands, p as int), commands[2 * p + 1int]));
        assert forall|k: int| 0 <= k < p implies #[trigger] pair_method(commands, k) == pair_method(
            commands,
            k,
        ) && pair_offset(commands, k as nat) + (if is_method_name(pair_method(commands, k)) {
            2nat
        } else {
            1nat
        }) <= prev.len() by {
            lemma_pair_offset_grows(commands, k as nat, p);
        }
    }
}

/// The outcome of checking a command list.
#[derive(Debug)]
pub struct CommandReport {
    /// The lines to print, pair by pair.
    pub lines: Vec<String>,
    /// Whether a method is left without its data (an odd number of words).
    pub unpaired: bool,
}

fn known_method_exec(m: &str) -> (r: bool)
    ensures
        r == known_method(m@),
{
    str_eq(m, "POST") || str_eq(m, "GET") || str_eq(m, "HEAD") || str_eq(m, "PUT") || str_eq(
        m,
        "DELETE",
    )
}

/// Checks the pairs of a command list, `[METHOD data METHOD data ...]`: the
/// lines that tell each method and its data, and whether a last method has
/// no data.
pub fn validate_commands(commands: &Vec<String>) -> (r: CommandReport)
    ensures
        string_views(r.lines@) == report_lines(
            string_views(commands@),
            (commands@.len() / 2) as nat,
        ),
        r.unpaired == (commands@.len() % 2 == 1),
{
    let ghost c = string_views(commands@);
    let n = commands.len();
    let pairs = n / 2;
    let mut lines: Vec<String> = Vec::new();
    let mut k: usize = 0;
    while k < pairs
        invariant
            c == string_views(commands@),
            n == commands@.len(),
            pairs == n / 2,
            k <= pairs,
            string_views(lines@) == report_lines(c, k as nat),
        decreases pairs - k,
    {
        assert(2 * k + 1 < commands@.len());
        let method = trim_start_char(commands[2 * k].as_str(), '[');
        let data = commands[2 * k + 1].as_str();
        assert(c[2 * k as int] == commands@[2 * k as int]@);
        assert(c[2 * k + 1] == data@);
        let ghost before = lines@;
        if known_method_exec(method.as_str()) {
            let mut first = String::from_str(method.as_str());
            first.append(" METHOD: ");
            first.append(method.as_str());
            let mut second = String::from_str(method.as_str());
            second.append(" DATA: ");
            second.append(data);
            lines.push(first);
            lines.push(second);
            assert(string_views(lines@) =~= string_views(before) + seq![first@, second@]);
        } else {
            let error = String::from_str("ERROR: Invalid HTTP method.");
            lines.push(error);
            assert(string_views(lines@) =~= string_views(before) + seq![error@]);
        }
        k += 1;
    }
    CommandReport { lines, unpaired: commands.len() % 2 == 1 }
}

/// The command list after its brackets are removed: leading `[` from the
/// first word, then trailing `]` from the last.
pub open spec fn unbracketed(commands: Seq<Seq<char>>) -> Seq<Seq<char>>
    recommends
        commands.len() >= 1,
{
    let last = commands.len() - 1;
    let opened = commands.update(0, strip_leading(commands[0], '['));
    opened.update(last, strip_trailing(opened[last], ']'))
}

/// The arguments given to `curl` for the command list `commands`, the host
/// `host` and the method `method`.
pub open spec fn curl_args(commands: Seq<Seq<char>>, host: Seq<char>, method: Seq<char>) -> Seq<
    Seq<char>,
>
    recommends
        commands.len() >= 1,
{
    let c = unbracketed(commands);
    let last = commands.len() - 1;
    if method == "PUT"@ {
        seq![host + strip_leading(c[last], '@')] + c
    } else if method == "HEAD"@ {
        seq!["-I"@, host]
    } else if method == "GET"@ || method == "POST"@ {
        seq![host] + c
    } else if method == "DELETE"@ {
        c.insert(last, host + c[last])
    } else {
        c
    }
}

/// Removing the brackets touches only the first and the last word: the
/// first loses its leading `[`, the last its trailing `]`, and every word
/// between stays as it is.
pub proof fn lemma_unbracketed_words(commands: Seq<Seq<char>>)
    requires
        commands.len() >= 1,
    ensures
        unbracketed(commands).len() == commands.len(),
        forall|i: int|
            0 < i < commands.len() - 1 ==> #[trigger] unbracketed(commands)[i] == commands[i],
        commands.len() > 1 ==> unbracketed(commands)[0] == strip_leading(commands[0], '['),
        commands.len() > 1 ==> unbracketed(commands)[commands.len() - 1] == strip_trailing(
            commands[commands.len() - 1],
            ']',
        ),
        commands.len() == 1 ==> unbracketed(commands)[0] == strip_trailing(
            strip_leading(commands[0], '['),
            ']',
        ),
{
}

/// The shape of the `curl` arguments, method by method, over the words `u`
/// of the list with its brackets removed: `GET` and `POST` put the host
/// before every word; `PUT` puts the host joined to the last word (without
/// leading `@`) before every word; `HEAD` gives `-I` and the host alone;
/// `DELETE` puts the host joined to the last word just before the last word;
/// any other method gives the words unchanged.
pub proof fn lemma_curl_args_shape(commands: Seq<Seq<char>>, host: Seq<char>, method: Seq<char>)
    requires
        commands.len() >= 1,
    ensures
        ({
            let r = curl_args(commands, host, method);
            let u = unbracketed(commands);
            let n = commands.len() as int;
            let last = n - 1;
            &&& (method == "GET"@ || method == "POST"@) ==> {
                &&& r.len() == n + 1
                &&& r[0] == host
                &&& forall|i: int| 0 <= i < n ==> r[i + 1] == #[trigger] u[i]
            }
            &&& method == "PUT"@ ==> {
                &&& r.len() == n + 1
                &&& r[0] == host + strip_leading(u[last], '@')
                &&& forall|i: int| 0 <= i < n ==> r[i + 1] == #[trigger] u[i]
            }
            &&& method == "HEAD"@ ==> r == seq!["-I"@, host]
            &&& method == "DELETE"@ ==> {
                &&& r.len() == n + 1
                &&& forall|i: int| 0 <= i < last ==> r[i] == #[trigger] u[i]
                &&& r[last] == host + u[last]
                &&& r[last + 1] == u[last]
            }
            &&& !(method == "GET"@ || method == "POST"@ || method == "PUT"@ || method == "HEAD"@
                || method == "DELETE"@) ==> r == u
        }),
{
    reveal_strlit("GET");
    reveal_strlit("POST");
    reveal_strlit("PUT");
    reveal_strlit("HEAD");
    reveal_strlit("DELETE");
    assert("GET"@.len() == 3 && "PUT"@.len() == 3 && "POST"@.len() == 4 && "HEAD"@.len() == 4
        && "DELETE"@.len() == 6);
    assert("GET"@[0] != "PUT"@[0] && "POST"@[0] != "HEAD"@[0] && "POST"@[1] != "PUT"@[1]);
    let u = unbracketed(commands);
    let n = commands.len() as int;
    let last = n - 1;
    let r = curl_args(commands, host, method);
    if method == "DELETE"@ {
        assert(r == u.insert(last, host + u[last]));
    }
}

/// Builds the arguments of the `curl` call for a bracketed command list:
/// `PUT` puts the URL of the uploaded file first, `HEAD` asks for headers
/// only, `GET` and `POST` put the host first, and `DELETE` puts the URL of
/// the file before the last word.
pub fn format_command(commands: &Vec<String>, host: &str, method: &str) -> (r: Vec<String>)
    requires
        commands@.len() >= 1,
    ensures
        string_views(r@) == curl_args(string_views(commands@), host@, method@),
{
    let ghost cv = string_views(commands@);
    let n = commands.len();
    let last = n - 1;
    let mut c: Vec<String> = Vec::new();
    let mut i: usize = 0;
    while i < n
        invariant
            n == commands@.len(),
            last == n - 1,
            cv == string_views(commands@),
            i <= n,
            string_views(c@) == unbracketed(cv).take(i as int),
        decreases n - i,
    {
        let word = if i == 0 {
            trim_start_char(commands[0].as_str(), '[')
        } else {
            commands[i].clone()
        };
        let word = if i == last {
            trim_end_char(word.as_str(), ']')
        } else {
            word
        };
        let ghost before = c@;
        c.push(word);
        proof {
            assert(cv[i as int] == commands@[i as int]@);
            assert(string_views(c@) =~= string_views(before).push(word@));
            assert(unbracketed(cv).take(i + 1) =~= unbracketed(cv).take(i as int).push(
                unbracketed(cv)[i as int],
            ));
        }
        i += 1;
    }
    assert(unbracketed(cv).take(n as int) =~= unbracketed(cv));
    assert(string_views(c@)[last as int] == c@[last as int]@);
    if str_eq(method, "PUT") {
        let mut url = String::from_str(host);
        let file = trim_start_char(c[last].as_str(), '@');
        url.append(file.as_str());
        let ghost before = c@;
        c.insert(0, url);
        assert(string_views(c@) =~= seq![url@] + string_views(before));
        c
    } else if str_eq(method, "HEAD") {
        let mut out: Vec<String> = Vec::new();
        let flag = String::from_str("-I");
        let h = String::from_str(host);
        out.push(flag);
        out.push(h);
        assert(string_views(out@) =~= seq![flag@, h@]);
        out
    } else if str_eq(method, "GET") || str_eq(method, "POST") {
        let h = String::from_str(host);
        let ghost before = c@;
        c.insert(0, h);
        assert(string_views(c@) =~= seq![h@] + string_views(before));
        c
    } else if str_eq(method, "DELETE") {
        let mut url = String::from_str(host);
        url.append(c[last].as_str());
        let ghost before = c@;
        c.insert(last, url);
        assert(string_views(c@) =~= string_views(before).insert(last as int, url@));
        c
    } else {
        c
    }
}

} // verus!
