//! The command lines of the servers (`-n workers -w root -p port`) and of the
//! client (`-h host [commands ...]`). Flags come in pairs from the second
//! word on; the scan stops at the first flag it does not know.
use vstd::prelude::*;
use crate::decimal::{parse_usize, parse_usize_spec};
use crate::text::{
    has_prefix,
    lemma_strip_trailing_is_take,
    str_eq,
    str_starts_with,
    string_views,
    strip_trailing,
    trim_end_char,
};

verus! {

/// Why a command line cannot be read.
#[derive(Debug, PartialEq, Eq, Structural, Clone, Copy)]
pub enum ArgError {
    /// The command line has no words at all.
    NoArguments,
    /// A flag is the last word, with no value after it.
    MissingValue,
    /// The value of `-n` is not a number that fits in a `usize`.
    InvalidNumber,
}

/// The settings of a server.
#[derive(Debug)]
pub struct ServerArgs {
    /// The address to listen on (`-w`).
    pub root: String,
    /// The port to listen on (`-p`).
    pub port: String,
    /// How many workers serve requests (`-n`).
    pub workers: usize,
    /// Whether the scan stopped at a flag it does not know.
    pub invalid_flag: bool,
}

/// What the settings of a server hold.
pub struct ServerArgsView {
    pub root: Seq<char>,
    pub port: Seq<char>,
    pub workers: usize,
    pub invalid_flag: bool,
}

impl View for ServerArgs {
    type V = ServerArgsView;

    open spec fn view(&self) -> ServerArgsView {
        ServerArgsView {
            root: self.root@,
            port: self.port@,
            workers: self.workers,
            invalid_flag: self.invalid_flag,
        }
    }
}

/// The settings before any flag: `127.0.0.1`, port `7878`, one worker.
pub open spec fn default_server_args() -> ServerArgsView {
    ServerArgsView { root: "127.0.0.1"@, port: "7878"@, workers: 1, invalid_flag: false }
}

/// The settings read from the flag pairs of `args` from the `k`-th on,
/// starting from `acc`.
pub open spec fn server_args_from(args: Seq<Seq<char>>, k: nat, acc: ServerArgsView) -> Result<
    ServerArgsView,
    ArgError,
>
    decreases args.len() - 2 * k,
{
    if 1 + 2 * k >= args.len() {
        Ok(acc)
    } else if 2 + 2 * k >= args.len() {
        Err(ArgError::MissingValue)
    } else {
        let flag = args[1 + 2 * k as int];
        let value = args[2 + 2 * k as int];
        if flag == "-n"@ {
            match parse_usize_spec(value) {
                Some(n) => server_args_from(
                    args,
                    k + 1,
                    ServerArgsView { root: acc.root, port: acc.port, workers: n, invalid_flag: false },
                ),
                None => Err(ArgError::InvalidNumber),
            }
        } else if flag == "-w"@ {
            server_args_from(
                args,
                k + 1,
                ServerArgsView {
                    root: value,
                    port: acc.port,
                    workers: acc.workers,
                    invalid_flag: false,
                },
            )
        } else if flag == "-p"@ {
            server_args_from(
                args,
                k + 1,
                ServerArgsView {
                    root: acc.root,
                    port: value,
                    workers: acc.workers,
                    invalid_flag: false,
                },
            )
        } else {
            Ok(
                ServerArgsView {
                    root: acc.root,
                    port: acc.port,
                    workers: acc.workers,
                    invalid_flag: true,
                },
            )
        }
    }
}

/// The settings that a server's command line `args` gives.
pub open spec fn server_args_spec(args: Seq<Seq<char>>) -> Result<ServerArgsView, ArgError> {
    if args.len() == 0 {
        Err(ArgError::NoArguments)
    } else {
        server_args_from(args, 0, default_server_args())
    }
}

/// Reads a server's command line: the first word names the program, then
/// come pairs of a flag and its value.
pub fn parse_server_args(args: &Vec<String>) -> (r: Result<ServerArgs, ArgError>)
    ensures
        match r {
            Ok(s) => server_args_spec(string_views(args@)) == Ok::<ServerArgsView, ArgError>(s@),
            Err(e) => server_args_spec(string_views(args@)) == Err::<ServerArgsView, ArgError>(e),
        },
{
    let ghost a = string_views(args@);
    let len = args.len();
    if len == 0 {
        return Err(ArgError::NoArguments);
    }
    let mut root = String::from_str("127.0.0.1");
    let mut port = String::from_str("7878");
    let mut workers: usize = 1;
    let mut counter: usize = 1;
    let ghost mut k: nat = 0;
    while counter < len
        invariant
            len == args@.len(),
            a == string_views(args@),
            counter == 1 + 2 * k,
            counter <= len + 1,
            server_args_from(
                a,
                k,
                ServerArgsView { root: root@, port: port@, workers, invalid_flag: false },
            ) == server_args_spec(a),
        decreases len - counter,
    {
        if counter + 1 >= len {
            return Err(ArgError::MissingValue);
        }
        let flag = args[counter].as_str();
        let value = args[counter + 1].as_str();
        assert(a[counter as int] == flag@);
        assert(a[counter + 1] == value@);
        if str_eq(flag, "-n") {
            match parse_usize(value) {
                Some(n) => {
                    workers = n;
                },
                None => {
                    return Err(ArgError::InvalidNumber);
                },
            }
        } else if str_eq(flag, "-w") {
            root = String::from_str(value);
        } else if str_eq(flag, "-p") {
            port = String::from_str(value);
        } else {
            return Ok(ServerArgs { root, port, workers, invalid_flag: true });
        }
        counter = counter + 2;
        proof {
            k = k + 1;
        }
    }
    Ok(ServerArgs { root, port, workers, invalid_flag: false })
}

/// The flag of the `k`-th flag pair of a command line.
pub open spec fn flag_at(args: Seq<Seq<char>>, k: int) -> Seq<char> {
    args[1 + 2 * k]
}

/// The value of the `k`-th flag pair of a command line.
pub open spec fn value_at(args: Seq<Seq<char>>, k: int) -> Seq<char> {
    args[2 + 2 * k]
}

/// A flag that a server knows.
pub open spec fn is_server_flag(f: Seq<char>) -> bool {
    f == "-n"@ || f == "-w"@ || f == "-p"@
}

/// The `k`-th flag pair is complete and the scan that starts at pair `from`
/// reaches it: it and every pair before it, from `from` on, carry flags the
/// server knows.
pub open spec fn server_pair_read(args: Seq<Seq<char>>, from: int, k: int) -> bool {
    &&& from <= k
    &&& 2 + 2 * k < args.len()
    &&& forall|j: int| from <= j <= k ==> is_server_flag(#[trigger] flag_at(args, j))
}

/// The `k`-th pair is the last pair with flag `f` that the scan from `from`
/// reads.
pub open spec fn last_read_with(args: Seq<Seq<char>>, from: int, k: int, f: Seq<char>) -> bool {
    &&& server_pair_read(args, from, k)
    &&& flag_at(args, k) == f
    &&& forall|k2: int| k < k2 && #[trigger] server_pair_read(args, from, k2) ==> flag_at(args, k2) != f
}

/// No pair with flag `f` is read by the scan from `from`.
pub open spec fn none_read_with(args: Seq<Seq<char>>, from: int, f: Seq<char>) -> bool {
    forall|k: int| #[trigger] server_pair_read(args, from, k) ==> flag_at(args, k) != f
}

/// The `k`-th pair is complete, its flag is not one the server knows, and
/// every pair before it, from `from` on, carries a known flag.
pub open spec fn first_unknown_flag(args: Seq<Seq<char>>, from: int, k: int) -> bool {
    &&& from <= k
    &&& 2 + 2 * k < args.len()
    &&& !is_server_flag(flag_at(args, k))
    &&& forall|j: int| from <= j < k ==> is_server_flag(#[trigger] flag_at(args, j))
}

proof fn lemma_server_flags_from(args: Seq<Seq<char>>, k: nat, acc: ServerArgsView, s: ServerArgsView)
    requires
        server_args_from(args, k, acc) == Ok::<ServerArgsView, ArgError>(s),
        !acc.invalid_flag,
    ensures
        forall|k2: int| #[trigger] first_unknown_flag(args, k as int, k2) ==> s.invalid_flag,
        !s.invalid_flag ==> forall|k2: int|
            k <= k2 && 2 + 2 * k2 < args.len() ==> is_server_flag(#[trigger] flag_at(args, k2)),
        forall|k2: int| last_read_with(args, k as int, k2, "-p"@) ==> s.port == value_at(args, k2),
        none_read_with(args, k as int, "-p"@) ==> s.port == acc.port,
        forall|k2: int| last_read_with(args, k as int, k2, "-w"@) ==> s.root == value_at(args, k2),
        none_read_with(args, k as int, "-w"@) ==> s.root == acc.root,
        forall|k2: int|
            last_read_with(args, k as int, k2, "-n"@) ==> parse_usize_spec(value_at(args, k2))
                == Some(s.workers),
        none_read_with(args, k as int, "-n"@) ==> s.workers == acc.workers,
    decreases args.len() - 2 * k,
{
    reveal_strlit("-n");
    reveal_strlit("-w");
    reveal_strlit("-p");
    assert("-n"@[1] != "-w"@[1] && "-n"@[1] != "-p"@[1] && "-w"@[1] != "-p"@[1]);
    let ki = k as int;
    if 1 + 2 * k >= args.len() {
        assert forall|k2: int| !server_pair_read(args, ki, k2) by {}
        assert forall|k2: int| !first_unknown_flag(args, ki, k2) by {}
    } else if 2 + 2 * k >= args.len() {
    } else {
        let f = flag_at(args, ki);
        let v = value_at(args, ki);
        // A pair after the first one is read from `k` exactly when it is read
        // from `k + 1` and the first flag is known.
        assert forall|k2: int| ki < k2 implies (server_pair_read(args, ki, k2) <==> (is_server_flag(f)
            && server_pair_read(args, ki + 1, k2))) by {
            if server_pair_read(args, ki, k2) {
                assert(is_server_flag(flag_at(args, ki)));
            }
            if is_server_flag(f) && server_pair_read(args, ki + 1, k2) {
                assert forall|j: int| ki <= j <= k2 implies is_server_flag(#[trigger] flag_at(args, j)) by {
                    if j == ki {
                    } else {
                        assert(is_server_flag(flag_at(args, j)));
                    }
                }
            }
        }
        if is_server_flag(f) {
            assert(server_pair_read(args, ki, ki));
            let acc2 = if f == "-n"@ {
                ServerArgsView {
                    root: acc.root,
                    port: acc.port,
                    workers: parse_usize_spec(v)->0,
                    invalid_flag: false,
                }
            } else if f == "-w"@ {
                ServerArgsView { root: v, port: acc.port, workers: acc.workers, invalid_flag: false }
            } else {
                ServerArgsView { root: acc.root, port: v, workers: acc.workers, invalid_flag: false }
            };
            if f == "-n"@ {
                assert(parse_usize_spec(v) is Some);
            }
            assert(server_args_from(args, k + 1, acc2) == Ok::<ServerArgsView, ArgError>(s));
            lemma_server_flags_from(args, k + 1, acc2, s);
            assert forall|g: Seq<char>, k2: int|
                ki < k2 && #[trigger] last_read_with(args, ki, k2, g) implies last_read_with(
                args,
                ki + 1,
                k2,
                g,
            ) by {
                assert forall|k3: int| k2 < k3 && #[trigger] server_pair_read(args, ki + 1, k3) implies flag_at(
                    args,
                    k3,
                ) != g by {
                    assert(server_pair_read(args, ki, k3));
                }
            }
            assert forall|g: Seq<char>| f != g && #[trigger] none_read_with(args, ki, g) implies none_read_with(
                args,
                ki + 1,
                g,
            ) by {
                assert forall|k3: int| #[trigger] server_pair_read(args, ki + 1, k3) implies flag_at(args, k3)
                    != g by {
                    assert(server_pair_read(args, ki, k3));
                }
            }
            assert forall|g: Seq<char>| f == g && #[trigger] last_read_with(args, ki, ki, g) implies none_read_with(
                args,
                ki + 1,
                g,
            ) by {
                assert forall|k3: int| #[trigger] server_pair_read(args, ki + 1, k3) implies flag_at(args, k3)
                    != g by {
                    assert(server_pair_read(args, ki, k3));
                }
            }
            assert forall|g: Seq<char>, k2: int| #[trigger] last_read_with(args, ki, k2, g) implies ki <= k2 by {}
            assert forall|g: Seq<char>| f == g implies !none_read_with(args, ki, g) by {
                assert(server_pair_read(args, ki, ki));
            }
            assert forall|k2: int| #[trigger] first_unknown_flag(args, ki, k2) implies first_unknown_flag(
                args,
                ki + 1,
                k2,
            ) by {
                assert(k2 != ki);
            }

        } else {
            assert forall|k2: int| !server_pair_read(args, ki, k2) by {
                if server_pair_read(args, ki, k2) {
                    assert(is_server_flag(flag_at(args, ki)));
                }
            }
        }
    }
}

/// In a command line that reads, each flag sets its own setting alone: the
/// port is the value of the last `-p` pair read ("7878" when there is none),
/// the root that of the last `-w` ("127.0.0.1" when none), and the worker
/// count the number written after the last `-n` (1 when none), whatever other
/// pairs come before or after. The scan is marked as stopped at an unknown
/// flag when it reaches one, and otherwise every complete pair carries a
/// known flag.
pub proof fn lemma_server_flags_set_their_own(args: Seq<Seq<char>>, s: ServerArgsView)
    requires
        server_args_spec(args) == Ok::<ServerArgsView, ArgError>(s),
    ensures
        forall|k: int| last_read_with(args, 0, k, "-p"@) ==> s.port == value_at(args, k),
        none_read_with(args, 0, "-p"@) ==> s.port == "7878"@,
        forall|k: int| last_read_with(args, 0, k, "-w"@) ==> s.root == value_at(args, k),
        none_read_with(args, 0, "-w"@) ==> s.root == "127.0.0.1"@,
        forall|k: int|
            last_read_with(args, 0, k, "-n"@) ==> parse_usize_spec(value_at(args, k)) == Some(
                s.workers,
            ),
        none_read_with(args, 0, "-n"@) ==> s.workers == 1,
        forall|k: int| #[trigger] first_unknown_flag(args, 0, k) ==> s.invalid_flag,
        !s.invalid_flag ==> forall|k: int|
            0 <= k && 2 + 2 * k < args.len() ==> is_server_flag(#[trigger] flag_at(args, k)),
{
    lemma_server_flags_from(args, 0, default_server_args(), s);
}

/// The values that the scan of a server's command line reads after each
/// `-n`, in order, from the `k`-th flag pair on: a value that is not a number
/// is still read, and the scan ends there.
pub open spec fn worker_values_from(args: Seq<Seq<char>>, k: nat) -> Seq<Seq<char>>
    decreases args.len() - 2 * k,
{
    if 2 + 2 * k >= args.len() {
        Seq::empty()
    } else {
        let flag = args[1 + 2 * k as int];
        let value = args[2 + 2 * k as int];
        if flag == "-n"@ {
            if parse_usize_spec(value) is Some {
                seq![value] + worker_values_from(args, k + 1)
            } else {
                seq![value]
            }
        } else if flag == "-w"@ || flag == "-p"@ {
            worker_values_from(args, k + 1)
        } else {
            Seq::empty()
        }
    }
}

/// The values read after each `-n` of a server's command line `args`.
pub open spec fn worker_values_spec(args: Seq<Seq<char>>) -> Seq<Seq<char>> {
    if args.len() == 0 {
        Seq::empty()
    } else {
        worker_values_from(args, 0)
    }
}

/// The values that reading a server's command line finds after each `-n`,
/// in the order it reads them, up to where the reading stops; the
/// process-pool server echoes each one as it reads it.
pub fn worker_flag_values(args: &Vec<String>) -> (r: Vec<String>)
    ensures
        string_views(r@) == worker_values_spec(string_views(args@)),
{
    let ghost a = string_views(args@);
    let len = args.len();
    let mut out: Vec<String> = Vec::new();
    if len == 0 {
        assert(string_views(out@) =~= Seq::<Seq<char>>::empty());
        return out;
    }
    let mut counter: usize = 1;
    let ghost mut k: nat = 0;
    assert(string_views(out@) + worker_values_from(a, 0) =~= worker_values_spec(a));
    while counter < len && counter + 1 < len
        invariant
            len == args@.len(),
            len >= 1,
            a == string_views(args@),
            counter == 1 + 2 * k,
            counter <= len + 1,
            string_views(out@) + worker_values_from(a, k) == worker_values_spec(a),
        decreases len - counter,
    {
        let flag = args[counter].as_str();
        let value = args[counter + 1].as_str();
        assert(a[counter as int] == flag@);
        assert(a[counter + 1] == value@);
        let ghost before = out@;
        if str_eq(flag, "-n") {
            out.push(String::from_str(value));
            assert(string_views(out@) =~= string_views(before).push(value@));
            if parse_usize(value).is_none() {
                assert(string_views(out@) =~= worker_values_spec(a));
                return out;
            }
            assert(string_views(out@) + worker_values_from(a, k + 1) =~= string_views(before)
                + worker_values_from(a, k));
        } else if str_eq(flag, "-w") || str_eq(flag, "-p") {
        } else {
            assert(string_views(out@) =~= worker_values_spec(a));
            return out;
        }
        counter = counter + 2;
        proof {
            k = k + 1;
        }
    }
    assert(worker_values_from(a, k) =~= Seq::<Seq<char>>::empty());
    assert(string_views(out@) =~= worker_values_spec(a));
    out
}

impl ServerArgs {
    /// The address the server binds: the root, a colon, the port.
    pub fn bind_address(&self) -> (r: String)
        ensures
            r@ == self.root@ + ":"@ + self.port@,
    {
        let mut out = String::from_str(self.root.as_str());
        out.append(":");
        out.append(self.port.as_str());
        out
    }
}

/// What the client is asked to do.
#[derive(Debug)]
pub enum ClientPlan {
    /// Run the bracketed command list against `host`; `method` is the word
    /// after the opening bracket, without trailing `]`.
    Send { host: String, commands: Vec<String>, method: String },
    /// A flag that the client does not know stopped the scan.
    InvalidFlag,
    /// No command list came.
    NoCommands,
}

/// What a client plan holds.
pub enum ClientPlanView {
    Send { host: Seq<char>, commands: Seq<Seq<char>>, method: Seq<char> },
    InvalidFlag,
    NoCommands,
}

impl View for ClientPlan {
    type V = ClientPlanView;

    open spec fn view(&self) -> ClientPlanView {
        match self {
            ClientPlan::Send { host, commands, method } => ClientPlanView::Send {
                host: host@,
                commands: string_views(commands@),
                method: method@,
            },
            ClientPlan::InvalidFlag => ClientPlanView::InvalidFlag,
            ClientPlan::NoCommands => ClientPlanView::NoCommands,
        }
    }
}

/// The host the client talks to before any `-h`.
pub open spec fn default_host() -> Seq<char> {
    "localhost:7878/"@
}

/// The client plan read from the flag pairs of `args` from the `k`-th on,
/// with `host` chosen so far.
pub open spec fn client_plan_from(args: Seq<Seq<char>>, k: nat, host: Seq<char>) -> Result<
    ClientPlanView,
    ArgError,
>
    decreases args.len() - 2 * k,
{
    if 1 + 2 * k >= args.len() {
        Ok(ClientPlanView::NoCommands)
    } else if 2 + 2 * k >= args.len() {
        Err(ArgError::MissingValue)
    } else {
        let flag = args[1 + 2 * k as int];
        let value = args[2 + 2 * k as int];
        if flag == "-h"@ {
            client_plan_from(args, k + 1, value)
        } else if has_prefix(flag, "["@) {
            Ok(
                ClientPlanView::Send {
                    host,
                    commands: args.skip(1 + 2 * k as int),
                    method: strip_trailing(value, ']'),
                },
            )
        } else {
            Ok(ClientPlanView::InvalidFlag)
        }
    }
}

/// The plan that a client's command line `args` gives.
pub open spec fn client_plan_spec(args: Seq<Seq<char>>) -> Result<ClientPlanView, ArgError> {
    if args.len() == 0 {
        Err(ArgError::NoArguments)
    } else {
        client_plan_from(args, 0, default_host())
    }
}

/// The words of `args` from `from` on.
fn words_from(args: &Vec<String>, from: usize) -> (r: Vec<String>)
    requires
        from <= args@.len(),
    ensures
        string_views(r@) == string_views(args@).skip(from as int),
{
    let mut out: Vec<String> = Vec::new();
    let mut i: usize = from;
    while i < args.len()
        invariant
            from <= i <= args@.len(),
            string_views(out@) == string_views(args@).subrange(from as int, i as int),
        decreases args@.len() - i,
    {
        let w = args[i].clone();
        let ghost before = out@;
        out.push(w);
        assert(string_views(out@) =~= string_views(before).push(w@));
        i += 1;
        assert(string_views(out@) =~= string_views(args@).subrange(from as int, i as int));
    }
    assert(string_views(args@).subrange(from as int, args@.len() as int) =~= string_views(
        args@,
    ).skip(from as int));
    out
}

/// Reads a client's command line: `-h host` pairs, then a word that opens
/// with `[` starts the command list, which runs to the end of the line.
pub fn parse_client_args(args: &Vec<String>) -> (r: Result<ClientPlan, ArgError>)
    ensures
        match r {
            Ok(p) => client_plan_spec(string_views(args@)) == Ok::<ClientPlanView, ArgError>(p@),
            Err(e) => client_plan_spec(string_views(args@)) == Err::<ClientPlanView, ArgError>(e),
        },
{
    let ghost a = string_views(args@);
    let len = args.len();
    if len == 0 {
        return Err(ArgError::NoArguments);
    }
    let mut host = String::from_str("localhost:7878/");
    let mut counter: usize = 1;
    let ghost mut k: nat = 0;
    while counter < len
        invariant
            len == args@.len(),
            a == string_views(args@),
            counter == 1 + 2 * k,
            counter <= len + 1,
            client_plan_from(a, k, host@) == client_plan_spec(a),
        decreases len - counter,
    {
        if counter + 1 >= len {
            return Err(ArgError::MissingValue);
        }
        let flag = args[counter].as_str();
        let value = args[counter + 1].as_str();
        assert(a[counter as int] == flag@);
        assert(a[counter + 1] == value@);
        if str_eq(flag, "-h") {
            host = String::from_str(value);
        } else if str_starts_with(flag, "[") {
            let commands = words_from(args, counter);
            let method = trim_end_char(value, ']');
            return Ok(ClientPlan::Send { host, commands, method });
        } else {
            return Ok(ClientPlan::InvalidFlag);
        }
        counter = counter + 2;
        proof {
            k = k + 1;
        }
    }
    Ok(ClientPlan::NoCommands)
}

proof fn lemma_client_send_from(
    args: Seq<Seq<char>>,
    k: nat,
    host0: Seq<char>,
    host: Seq<char>,
    commands: Seq<Seq<char>>,
    method: Seq<char>,
) -> (m: int)
    requires
        client_plan_from(args, k, host0) == Ok::<ClientPlanView, ArgError>(
            ClientPlanView::Send { host, commands, method },
        ),
    ensures
        k <= m,
        2 + 2 * m < args.len(),
        forall|j: int| k <= j < m ==> #[trigger] flag_at(args, j) == "-h"@,
        has_prefix(flag_at(args, m), "["@),
        host == (if m == k {
            host0
        } else {
            value_at(args, m - 1)
        }),
        commands == args.skip(1 + 2 * m),
        method == strip_trailing(value_at(args, m), ']'),
    decreases args.len() - 2 * k,
{
    let ki = k as int;
    if flag_at(args, ki) == "-h"@ {
        let m = lemma_client_send_from(args, k + 1, value_at(args, ki), host, commands, method);
        assert forall|j: int| ki <= j < m implies #[trigger] flag_at(args, j) == "-h"@ by {
            if j > ki {
                assert(flag_at(args, j) == "-h"@);
            }
        }
        m
    } else {
        ki
    }
}

/// When the client is sent off with a command list, its host is the value of
/// the last `-h` pair before the bracketed word ("localhost:7878/" when there
/// is none), every pair before that word is a `-h` pair, the command list is
/// every word from the bracketed one on, and the method is the word after it
/// with its trailing `]` cut off and nothing else changed.
pub proof fn lemma_client_plan_host(
    args: Seq<Seq<char>>,
    host: Seq<char>,
    commands: Seq<Seq<char>>,
    method: Seq<char>,
) -> (m: int)
    requires
        client_plan_spec(args) == Ok::<ClientPlanView, ArgError>(
            ClientPlanView::Send { host, commands, method },
        ),
    ensures
        0 <= m,
        2 + 2 * m < args.len(),
        forall|j: int| 0 <= j < m ==> #[trigger] flag_at(args, j) == "-h"@,
        flag_at(args, m).len() > 0 && flag_at(args, m)[0] == '[',
        host == (if m == 0 {
            "localhost:7878/"@
        } else {
            value_at(args, m - 1)
        }),
        commands.len() == args.len() - (1 + 2 * m),
        forall|i: int| 0 <= i < commands.len() ==> #[trigger] commands[i] == args[1 + 2 * m + i],
        method.len() <= value_at(args, m).len(),
        method == value_at(args, m).take(method.len() as int),
        forall|i: int|
            method.len() <= i < value_at(args, m).len() ==> #[trigger] value_at(args, m)[i] == ']',
        method.len() == 0 || method.last() != ']',
{
    reveal_strlit("[");
    let m = lemma_client_send_from(args, 0, default_host(), host, commands, method);
    assert(flag_at(args, m).subrange(0, 1)[0] == '[');
    let t = lemma_strip_trailing_is_take(value_at(args, m), ']');
    m
}

/// The flag opens the bracketed command list.
pub open spec fn opens_list(f: Seq<char>) -> bool {
    f.len() > 0 && f[0] == '['
}

/// Every flag pair from the `k`-th up to (not including) the `m`-th is a
/// `-h` pair.
pub open spec fn host_pairs(args: Seq<Seq<char>>, k: int, m: int) -> bool {
    forall|j: int| k <= j < m ==> #[trigger] flag_at(args, j) == "-h"@
}

proof fn lemma_client_outcomes_from(args: Seq<Seq<char>>, k: nat, host0: Seq<char>)
    ensures
        forall|m: int|
            k <= m && 2 + 2 * m < args.len() && #[trigger] host_pairs(args, k as int, m) && flag_at(
                args,
                m,
            ) != "-h"@ && !opens_list(flag_at(args, m)) ==> client_plan_from(args, k, host0)
                == Ok::<ClientPlanView, ArgError>(ClientPlanView::InvalidFlag),
        host_pairs(args, k as int, args.len() as int) && args.len() % 2 == 1 ==> client_plan_from(
            args,
            k,
            host0,
        ) == Ok::<ClientPlanView, ArgError>(ClientPlanView::NoCommands),
        host_pairs(args, k as int, args.len() as int) && args.len() % 2 == 0 && 1 + 2 * k
            < args.len() ==> client_plan_from(args, k, host0) == Err::<ClientPlanView, ArgError>(
            ArgError::MissingValue,
        ),
    decreases args.len() - 2 * k,
{
    reveal_strlit("[");
    let ki = k as int;
    if 1 + 2 * k >= args.len() {
    } else if 2 + 2 * k >= args.len() {
    } else {
        let f = flag_at(args, ki);
        assert("["@ =~= seq!['[']);
        if f.len() > 0 {
            assert(f.subrange(0, 1) =~= seq![f[0]]);
            assert(f.subrange(0, 1)[0] == f[0]);
            assert(seq![f[0]] == seq!['['] ==> f[0] == '[') by {
                if seq![f[0]] == seq!['['] {
                    assert(seq![f[0]][0] == seq!['['][0]);
                }
            }
        }
        assert(has_prefix(f, "["@) <==> opens_list(f));
        if f == "-h"@ {
            lemma_client_outcomes_from(args, k + 1, value_at(args, ki));
            assert forall|m: int|
                k <= m && 2 + 2 * m < args.len() && #[trigger] host_pairs(args, ki, m) && flag_at(args, m)
                    != "-h"@ && !opens_list(flag_at(args, m)) implies host_pairs(args, ki + 1, m)
                && k + 1 <= m by {
                if m == ki {
                }
            }
            if host_pairs(args, ki, args.len() as int) {
                assert(host_pairs(args, ki + 1, args.len() as int));
            }
        } else {
            assert forall|m: int|
                k <= m && 2 + 2 * m < args.len() && #[trigger] host_pairs(args, ki, m) && flag_at(args, m)
                    != "-h"@ && !opens_list(flag_at(args, m)) implies m == ki by {
                if m > ki {
                    assert(flag_at(args, ki) == "-h"@);
                }
            }
            if host_pairs(args, ki, args.len() as int) {
                assert(flag_at(args, ki) == "-h"@);
            }
        }
    }
}

/// What the client does when it is not sent off: it stops at the first pair,
/// after `-h` pairs only, whose flag is neither `-h` nor opens the list; it
/// has nothing to do when every pair is a `-h` pair and none is left
/// incomplete; and a last flag without its value is an error.
pub proof fn lemma_client_plan_outcomes(args: Seq<Seq<char>>)
    requires
        args.len() > 0,
    ensures
        forall|m: int|
            0 <= m && 2 + 2 * m < args.len() && #[trigger] host_pairs(args, 0, m) && flag_at(args, m)
                != "-h"@ && !opens_list(flag_at(args, m)) ==> client_plan_spec(args) == Ok::<
                ClientPlanView,
                ArgError,
            >(ClientPlanView::InvalidFlag),
        host_pairs(args, 0, args.len() as int) && args.len() % 2 == 1 ==> client_plan_spec(args)
            == Ok::<ClientPlanView, ArgError>(ClientPlanView::NoCommands),
        host_pairs(args, 0, args.len() as int) && args.len() % 2 == 0 ==> client_plan_spec(args)
            == Err::<ClientPlanView, ArgError>(ArgError::MissingValue),
{
    lemma_client_outcomes_from(args, 0, default_host());
}

} // verus!
