//! The command-line client's requests: turning arguments into request
//! envelopes `{"payload": .., "request_id": .., "type": ..}` (keys in sorted
//! order, as the JSON library writes objects).
use crate::json::{entry, i64_number_view, json_i64, json_object, json_str, JsonValue, JsonView};
use crate::text::{parse_i64, parse_i64_spec, push_str, str_eq, views_of};
use vstd::prelude::*;
use vstd::string::*;

verus! {

/// The text `a` followed by `b`.
fn concat(a: &str, b: &str) -> (r: String)
    ensures
        r@ == a@ + b@,
{
    let mut r = String::new();
    push_str(&mut r, a);
    push_str(&mut r, b);
    r
}

/// The entries of an object, as plain values.
pub open spec fn entries_of(es: Seq<(String, JsonValue)>) -> Seq<(Seq<char>, JsonView)> {
    Seq::new(es.len(), |i: int| (es[i].0@, es[i].1@))
}

fn push_entry(es: &mut Vec<(String, JsonValue)>, key: &str, v: JsonValue)
    ensures
        entries_of(final(es)@) == entries_of(old(es)@).push((key@, v@)),
{
    let ghost kv = (key@, v@);
    es.push(entry(key, v));
    proof {
        assert(entries_of(es@) =~= entries_of(old(es)@).push(kv));
    }
}

/// A request envelope: payload, request id and type.
pub open spec fn request_view(id: Seq<char>, request_type: Seq<char>, payload: JsonView) -> JsonView {
    JsonView::Object(
        seq![
            ("payload"@, payload),
            ("request_id"@, JsonView::String(id)),
            ("type"@, JsonView::String(request_type)),
        ],
    )
}

/// Whether `v` is a request envelope of the given type and payload, under
/// a request id that is the text of a fresh UUID.
pub open spec fn is_request(v: JsonView, request_type: Seq<char>, payload: JsonView) -> bool {
    exists|id: Seq<char>| crate::clock::is_uuid_text(id) && v == request_view(id, request_type, payload)
}

/// The envelope of a request with the given id, type and payload.
pub fn request_json(request_id: String, request_type: &str, payload: JsonValue) -> (r: JsonValue)
    ensures
        r@ == request_view(request_id@, request_type@, payload@),
{
    let ghost id = request_id@;
    let ghost p = payload@;
    let mut es: Vec<(String, JsonValue)> = Vec::new();
    push_entry(&mut es, "payload", payload);
    push_entry(&mut es, "request_id", JsonValue::String(request_id));
    push_entry(&mut es, "type", json_str(request_type));
    proof {
        reveal_strlit("payload");
        reveal_strlit("request_id");
        reveal_strlit("type");
        assert(entries_of(es@) =~= seq![
            ("payload"@, p),
            ("request_id"@, JsonView::String(id)),
            ("type"@, JsonView::String(request_type@)),
        ]);
    }
    json_object(es)
}

/// A fresh request id (a random UUID).
pub fn request_id() -> (r: String)
    ensures
        crate::clock::is_uuid_text(r@),
{
    crate::clock::new_uuid()
}

/// Wraps a payload into an envelope under a fresh request id.
fn envelope(request_type: &str, payload: JsonValue) -> (r: JsonValue)
    ensures
        is_request(r@, request_type@, payload@),
{
    let id = request_id();
    let r = request_json(id, request_type, payload);
    proof {
        assert(r@ == request_view(id@, request_type@, payload@));
    }
    r
}

/// The endpoint used when none is given.
pub fn default_endpoint() -> (r: String)
    ensures
        r@ == "punkgo-kernel"@,
{
    String::from_str("punkgo-kernel")
}

/// Takes a leading `--endpoint <e>` or `-e <e>` off the arguments and returns
/// the endpoint; otherwise leaves them and returns the default.
pub fn parse_endpoint(args: &mut Vec<String>) -> (r: String)
    ensures
        ({
            let a = views_of(old(args)@);
            if a.len() >= 2 && (a[0] == "--endpoint"@ || a[0] == "-e"@) {
                r@ == a[1] && final(args)@ == old(args)@.skip(2)
            } else {
                r@ == "punkgo-kernel"@ && final(args)@ == old(args)@
            }
        }),
{
    if args.len() >= 2 && (str_eq(args[0].as_str(), "--endpoint") || str_eq(args[0].as_str(), "-e")) {
        let ghost before = args@;
        let _flag = args.remove(0);
        let endpoint = args.remove(0);
        proof {
            assert(args@ =~= before.skip(2));
            assert(endpoint == before[1]);
        }
        return endpoint;
    }
    default_endpoint()
}

/// The JSON form of an integer.
pub open spec fn int_view(n: i64) -> JsonView {
    JsonView::Number(i64_number_view(n))
}

/// One entry when there is a value, none otherwise.
pub open spec fn opt_entry(key: Seq<char>, v: Option<JsonView>) -> Seq<(Seq<char>, JsonView)> {
    match v {
        Some(x) => seq![(key, x)],
        None => Seq::empty(),
    }
}

pub open spec fn opt_int(v: Option<i64>) -> Option<JsonView> {
    match v {
        Some(n) => Some(int_view(n)),
        None => None,
    }
}

pub open spec fn opt_string(v: Option<Seq<char>>) -> Option<JsonView> {
    match v {
        Some(s) => Some(JsonView::String(s)),
        None => None,
    }
}

fn push_opt_i64(es: &mut Vec<(String, JsonValue)>, key: &str, v: Option<i64>)
    ensures
        entries_of(final(es)@) == entries_of(old(es)@) + opt_entry(key@, opt_int(v)),
{
    match v {
        Some(n) => {
            push_entry(es, key, json_i64(n));
            proof {
                assert(entries_of(es@) =~= entries_of(old(es)@) + opt_entry(key@, opt_int(v)));
            }
        },
        None => {
            proof {
                assert(entries_of(es@) =~= entries_of(old(es)@) + opt_entry(key@, opt_int(v)));
            }
        },
    }
}

/// The integer after option `name` at position `i`.
pub open spec fn int_arg(args: Seq<Seq<char>>, i: int, name: Seq<char>) -> Result<i64, Seq<char>> {
    if i + 1 >= args.len() {
        Err(name + " requires a value"@)
    } else {
        match parse_i64_spec(args[i + 1]) {
            Some(v) => Ok(v),
            None => Err("invalid "@ + name + " value: "@ + args[i + 1]),
        }
    }
}

fn int_option(args: &[String], i: usize, name: &str) -> (r: Result<i64, String>)
    requires
        i < args@.len(),
    ensures
        match int_arg(views_of(args@), i as int, name@) {
            Ok(v) => r == Ok::<i64, String>(v),
            Err(m) => r matches Err(e) && e@ == m,
        },
{
    if args.len() - i < 2 {
        return Err(concat(name, " requires a value"));
    }
    match parse_i64(args[i + 1].as_str()) {
        Some(v) => Ok(v),
        None => {
            let a = concat("invalid ", name);
            let b = concat(a.as_str(), " value: ");
            Err(concat(b.as_str(), args[i + 1].as_str()))
        },
    }
}

/// Options of `read`: actor id, limit, log index, tree size, old size.
pub type ReadOpts = (Option<Seq<char>>, Option<i64>, Option<i64>, Option<i64>, Option<i64>);

/// The options of `read` from position `i` on, added to `o`.
pub open spec fn read_opts(args: Seq<Seq<char>>, i: int, o: ReadOpts) -> Result<ReadOpts, Seq<char>>
    decreases args.len() - i,
{
    if i >= args.len() {
        Ok(o)
    } else if args[i] == "--actor-id"@ {
        if i + 1 >= args.len() {
            Err("--actor-id requires a value"@)
        } else {
            read_opts(args, i + 2, (Some(args[i + 1]), o.1, o.2, o.3, o.4))
        }
    } else if args[i] == "--limit"@ {
        match int_arg(args, i, "--limit"@) {
            Ok(v) => read_opts(args, i + 2, (o.0, Some(v), o.2, o.3, o.4)),
            Err(m) => Err(m),
        }
    } else if args[i] == "--log-index"@ {
        match int_arg(args, i, "--log-index"@) {
            Ok(v) => read_opts(args, i + 2, (o.0, o.1, Some(v), o.3, o.4)),
            Err(m) => Err(m),
        }
    } else if args[i] == "--tree-size"@ {
        match int_arg(args, i, "--tree-size"@) {
            Ok(v) => read_opts(args, i + 2, (o.0, o.1, o.2, Some(v), o.4)),
            Err(m) => Err(m),
        }
    } else if args[i] == "--old-size"@ {
        match int_arg(args, i, "--old-size"@) {
            Ok(v) => read_opts(args, i + 2, (o.0, o.1, o.2, o.3, Some(v))),
            Err(m) => Err(m),
        }
    } else {
        Err("unknown read option: "@ + args[i])
    }
}

/// The payload of a read request.
pub open spec fn read_payload_view(kind: Seq<char>, o: ReadOpts) -> JsonView {
    JsonView::Object(
        opt_entry("actor_id"@, opt_string(o.0)) + seq![("kind"@, JsonView::String(kind))]
            + opt_entry("limit"@, opt_int(o.1)) + opt_entry("log_index"@, opt_int(o.2))
            + opt_entry("old_size"@, opt_int(o.4)) + opt_entry("tree_size"@, opt_int(o.3)),
    )
}

/// The read payload that `read <kind> [options]` asks for, or the message
/// of the first error.
pub open spec fn read_payload_of(args: Seq<Seq<char>>) -> Result<JsonView, Seq<char>> {
    if args.len() == 0 {
        Err(
            "usage: punkgo-cli read <kind> [--actor-id <id>] [--limit <n>] [--log-index <n>] [--tree-size <n>] [--old-size <n>]"@,
        )
    } else {
        match read_opts(args, 1, (None, None, None, None, None)) {
            Ok(o) => Ok(read_payload_view(args[0], o)),
            Err(m) => Err(m),
        }
    }
}

/// The payload of `read <kind> [--actor-id <id>] [--limit <n>]
/// [--log-index <n>] [--tree-size <n>] [--old-size <n>]`.
pub fn read_request_payload(args: &[String]) -> (r: Result<JsonValue, String>)
    ensures
        match read_payload_of(views_of(args@)) {
            Ok(p) => r matches Ok(v) && v@ == p,
            Err(m) => r matches Err(e) && e@ == m,
        },
{
    let ghost av = views_of(args@);
    if args.len() == 0 {
        return Err(
            String::from_str(
                "usage: punkgo-cli read <kind> [--actor-id <id>] [--limit <n>] [--log-index <n>] [--tree-size <n>] [--old-size <n>]",
            ),
        );
    }
    let mut actor_id: Option<String> = None;
    let mut limit: Option<i64> = None;
    let mut log_index: Option<i64> = None;
    let mut tree_size: Option<i64> = None;
    let mut old_size: Option<i64> = None;
    let mut i: usize = 1;
    while i < args.len()
        invariant
            av == views_of(args@),
            1 <= i <= args@.len(),
            read_opts(av, i as int, (opt_chars(actor_id), limit, log_index, tree_size, old_size))
                == read_opts(av, 1, (None, None, None, None, None)),
        decreases args@.len() - i,
    {
        let a = args[i].as_str();
        if str_eq(a, "--actor-id") {
            if args.len() - i < 2 {
                return Err(String::from_str("--actor-id requires a value"));
            }
            actor_id = Some(args[i + 1].clone());
            i = i + 2;
        } else if str_eq(a, "--limit") {
            match int_option(args, i, "--limit") {
                Ok(v) => {
                    limit = Some(v);
                },
                Err(e) => {
                    return Err(e);
                },
            }
            i = i + 2;
        } else if str_eq(a, "--log-index") {
            match int_option(args, i, "--log-index") {
                Ok(v) => {
                    log_index = Some(v);
                },
                Err(e) => {
                    return Err(e);
                },
            }
            i = i + 2;
        } else if str_eq(a, "--tree-size") {
            match int_option(args, i, "--tree-size") {
                Ok(v) => {
                    tree_size = Some(v);
                },
                Err(e) => {
                    return Err(e);
                },
            }
            i = i + 2;
        } else if str_eq(a, "--old-size") {
            match int_option(args, i, "--old-size") {
                Ok(v) => {
                    old_size = Some(v);
                },
                Err(e) => {
                    return Err(e);
                },
            }
            i = i + 2;
        } else {
            return Err(concat("unknown read option: ", a));
        }
    }
    let ghost o = (opt_chars(actor_id), limit, log_index, tree_size, old_size);
    let mut es: Vec<(String, JsonValue)> = Vec::new();
    match actor_id {
        Some(s) => {
            push_entry(&mut es, "actor_id", JsonValue::String(s));
        },
        None => {},
    }
    let ghost e0 = entries_of(es@);
    push_entry(&mut es, "kind", JsonValue::String(args[0].clone()));
    push_opt_i64(&mut es, "limit", limit);
    push_opt_i64(&mut es, "log_index", log_index);
    push_opt_i64(&mut es, "old_size", old_size);
    push_opt_i64(&mut es, "tree_size", tree_size);
    proof {
        assert(e0 =~= opt_entry("actor_id"@, opt_string(o.0)));
        assert(entries_of(es@) =~= opt_entry("actor_id"@, opt_string(o.0)) + seq![
            ("kind"@, JsonView::String(av[0])),
        ] + opt_entry("limit"@, opt_int(o.1)) + opt_entry("log_index"@, opt_int(o.2))
            + opt_entry("old_size"@, opt_int(o.4)) + opt_entry("tree_size"@, opt_int(o.3)));
    }
    Ok(json_object(es))
}

pub open spec fn opt_chars(o: Option<String>) -> Option<Seq<char>> {
    match o {
        Some(s) => Some(s@),
        None => None,
    }
}

/// The request of `read <kind> [options]`, under a fresh request id.
pub fn build_read_request(args: Vec<String>) -> (r: Result<JsonValue, String>)
    ensures
        match read_payload_of(views_of(args@)) {
            Ok(p) => r matches Ok(v) && is_request(v@, "read"@, p),
            Err(m) => r matches Err(e) && e@ == m,
        },
{
    match read_request_payload(args.as_slice()) {
        Ok(p) => Ok(envelope("read", p)),
        Err(e) => Err(e),
    }
}

/// The `--tree-size` option of `audit proof`, from position `i` on.
pub open spec fn proof_opts(args: Seq<Seq<char>>, i: int, tree_size: Option<i64>) -> Result<
    Option<i64>,
    Seq<char>,
>
    decreases args.len() - i,
{
    if i >= args.len() {
        Ok(tree_size)
    } else if args[i] == "--tree-size"@ {
        if i + 1 >= args.len() {
            Err("--tree-size requires a value"@)
        } else {
            match parse_i64_spec(args[i + 1]) {
                Some(v) => proof_opts(args, i + 2, Some(v)),
                None => Err("invalid --tree-size: "@ + args[i + 1]),
            }
        }
    } else {
        Err("unknown option: "@ + args[i])
    }
}

/// The read payload that `audit <subcommand>` asks for, or the message of the
/// first error.
pub open spec fn audit_payload_of(args: Seq<Seq<char>>) -> Result<JsonView, Seq<char>> {
    if args.len() == 0 {
        Err(
            "usage: punkgo-cli audit <subcommand>\nsubcommands:\n  checkpoint\n  proof <log-index> [--tree-size <n>]\n  consistency <old-size> <new-size>"@,
        )
    } else if args[0] == "checkpoint"@ {
        Ok(JsonView::Object(seq![("kind"@, JsonView::String("audit_checkpoint"@))]))
    } else if args[0] == "proof"@ {
        if args.len() < 2 {
            Err("usage: punkgo-cli audit proof <log-index> [--tree-size <n>]"@)
        } else {
            match parse_i64_spec(args[1]) {
                None => Err("invalid log-index: "@ + args[1]),
                Some(li) => match proof_opts(args, 2, None) {
                    Err(m) => Err(m),
                    Ok(ts) => Ok(
                        JsonView::Object(
                            seq![
                                ("kind"@, JsonView::String("audit_inclusion_proof"@)),
                                ("log_index"@, int_view(li)),
                            ] + opt_entry("tree_size"@, opt_int(ts)),
                        ),
                    ),
                },
            }
        }
    } else if args[0] == "consistency"@ {
        if args.len() < 3 {
            Err("usage: punkgo-cli audit consistency <old-size> <new-size>"@)
        } else {
            match (parse_i64_spec(args[1]), parse_i64_spec(args[2])) {
                (None, _) => Err("invalid old-size: "@ + args[1]),
                (Some(_), None) => Err("invalid new-size: "@ + args[2]),
                (Some(old_size), Some(new_size)) => Ok(
                    JsonView::Object(
                        seq![
                            ("kind"@, JsonView::String("audit_consistency_proof"@)),
                            ("old_size"@, int_view(old_size)),
                            ("tree_size"@, int_view(new_size)),
                        ],
                    ),
                ),
            }
        }
    } else {
        Err("unknown audit subcommand: "@ + args[0])
    }
}

/// The payload of `audit checkpoint`, `audit proof <log-index>
/// [--tree-size <n>]` or `audit consistency <old-size> <new-size>`.
pub fn audit_request_payload(args: &[String]) -> (r: Result<JsonValue, String>)
    ensures
        match audit_payload_of(views_of(args@)) {
            Ok(p) => r matches Ok(v) && v@ == p,
            Err(m) => r matches Err(e) && e@ == m,
        },
{
    let ghost av = views_of(args@);
    if args.len() == 0 {
        return Err(
            String::from_str(
                "usage: punkgo-cli audit <subcommand>\nsubcommands:\n  checkpoint\n  proof <log-index> [--tree-size <n>]\n  consistency <old-size> <new-size>",
            ),
        );
    }
    let sub = args[0].as_str();
    if str_eq(sub, "checkpoint") {
        let mut es: Vec<(String, JsonValue)> = Vec::new();
        push_entry(&mut es, "kind", json_str("audit_checkpoint"));
        proof {
            assert(entries_of(es@) =~= seq![("kind"@, JsonView::String("audit_checkpoint"@))]);
        }
        return Ok(json_object(es));
    } else if str_eq(sub, "proof") {
        if args.len() < 2 {
            return Err(
                String::from_str("usage: punkgo-cli audit proof <log-index> [--tree-size <n>]"),
            );
        }
        let log_index = match parse_i64(args[1].as_str()) {
            Some(v) => v,
            None => {
                return Err(concat("invalid log-index: ", args[1].as_str()));
            },
        };
        let mut tree_size: Option<i64> = None;
        let mut i: usize = 2;
        while i < args.len()
            invariant
                av == views_of(args@),
                2 <= i <= args@.len(),
                av[0] == "proof"@,
                av[0] != "checkpoint"@,
                parse_i64_spec(av[1]) == Some(log_index),
                proof_opts(av, i as int, tree_size) == proof_opts(av, 2, None),
            decreases args@.len() - i,
        {
            if str_eq(args[i].as_str(), "--tree-size") {
                if args.len() - i < 2 {
                    return Err(String::from_str("--tree-size requires a value"));
                }
                match parse_i64(args[i + 1].as_str()) {
                    Some(v) => {
                        tree_size = Some(v);
                    },
                    None => {
                        return Err(concat("invalid --tree-size: ", args[i + 1].as_str()));
                    },
                }
                i = i + 2;
            } else {
                return Err(concat("unknown option: ", args[i].as_str()));
            }
        }
        let mut es: Vec<(String, JsonValue)> = Vec::new();
        push_entry(&mut es, "kind", json_str("audit_inclusion_proof"));
        push_entry(&mut es, "log_index", json_i64(log_index));
        push_opt_i64(&mut es, "tree_size", tree_size);
        proof {
            assert(entries_of(es@) =~= seq![
                ("kind"@, JsonView::String("audit_inclusion_proof"@)),
                ("log_index"@, int_view(log_index)),
            ] + opt_entry("tree_size"@, opt_int(tree_size)));
        }
        return Ok(json_object(es));
    } else if str_eq(sub, "consistency") {
        if args.len() < 3 {
            return Err(
                String::from_str("usage: punkgo-cli audit consistency <old-size> <new-size>"),
            );
        }
        let old_size = match parse_i64(args[1].as_str()) {
            Some(v) => v,
            None => {
                return Err(concat("invalid old-size: ", args[1].as_str()));
            },
        };
        let new_size = match parse_i64(args[2].as_str()) {
            Some(v) => v,
            None => {
                return Err(concat("invalid new-size: ", args[2].as_str()));
            },
        };
        let mut es: Vec<(String, JsonValue)> = Vec::new();
        push_entry(&mut es, "kind", json_str("audit_consistency_proof"));
        push_entry(&mut es, "old_size", json_i64(old_size));
        push_entry(&mut es, "tree_size", json_i64(new_size));
        proof {
            assert(entries_of(es@) =~= seq![
                ("kind"@, JsonView::String("audit_consistency_proof"@)),
                ("old_size"@, int_view(old_size)),
                ("tree_size"@, int_view(new_size)),
            ]);
        }
        return Ok(json_object(es));
    }
    Err(concat("unknown audit subcommand: ", sub))
}

/// The request of `audit <subcommand>`: a read request, under a fresh id.
pub fn build_audit_request(args: Vec<String>) -> (r: Result<JsonValue, String>)
    ensures
        match audit_payload_of(views_of(args@)) {
            Ok(p) => r matches Ok(v) && is_request(v@, "read"@, p),
            Err(m) => r matches Err(e) && e@ == m,
        },
{
    match audit_request_payload(args.as_slice()) {
        Ok(p) => Ok(envelope("read", p)),
        Err(e) => Err(e),
    }
}

/// The options of `seed-actor` from position `i` on: energy and operator.
pub open spec fn seed_opts(args: Seq<Seq<char>>, i: int, o: (i64, Seq<char>)) -> Result<
    (i64, Seq<char>),
    Seq<char>,
>
    decreases args.len() - i,
{
    if i >= args.len() {
        Ok(o)
    } else if args[i] == "--energy"@ {
        match int_arg(args, i, "--energy"@) {
            Err(m) => Err(m),
            Ok(v) => if v < 0 {
                Err("--energy must be >= 0"@)
            } else {
                seed_opts(args, i + 2, (v, o.1))
            },
        }
    } else if args[i] == "--as"@ {
        if i + 1 >= args.len() {
            Err("--as requires a value"@)
        } else {
            seed_opts(args, i + 2, (o.0, args[i + 1]))
        }
    } else {
        Err("unknown seed-actor option: "@ + args[i])
    }
}

/// The action that creates actor `id` with `energy` units, made by `operator`.
pub open spec fn seed_action_view(operator: Seq<char>, id: Seq<char>, energy: i64) -> JsonView {
    JsonView::Object(
        seq![
            ("action_type"@, JsonView::String("create"@)),
            ("actor_id"@, JsonView::String(operator)),
            (
                "payload"@,
                JsonView::Object(
                    seq![
                        ("actor_id"@, JsonView::String(id)),
                        ("energy_balance"@, int_view(energy)),
                    ],
                ),
            ),
            ("target"@, JsonView::String("ledger/actor"@)),
        ],
    )
}

/// The action that `seed-actor <id> [--energy <n>] [--as <operator>]` submits
/// (1000 units by `root` unless told otherwise), or the first error.
pub open spec fn seed_action_of(args: Seq<Seq<char>>) -> Result<JsonView, Seq<char>> {
    if args.len() == 0 {
        Err(
            "usage: punkgo-cli seed-actor <new-actor-id> [--energy <n>] [--as <operator-actor>]"@,
        )
    } else if crate::policy::is_blank(args[0]) {
        Err("new actor id cannot be empty"@)
    } else {
        match seed_opts(args, 1, (1000, "root"@)) {
            Err(m) => Err(m),
            Ok(o) => Ok(seed_action_view(o.1, args[0], o.0)),
        }
    }
}

/// The action of `seed-actor <new-actor-id> [--energy <n>] [--as <operator>]`.
pub fn seed_actor_action(args: &[String]) -> (r: Result<JsonValue, String>)
    ensures
        match seed_action_of(views_of(args@)) {
            Ok(p) => r matches Ok(v) && v@ == p,
            Err(m) => r matches Err(e) && e@ == m,
        },
{
    let ghost av = views_of(args@);
    if args.len() == 0 {
        return Err(
            String::from_str(
                "usage: punkgo-cli seed-actor <new-actor-id> [--energy <n>] [--as <operator-actor>]",
            ),
        );
    }
    if crate::policy::is_blank_str(args[0].as_str()) {
        return Err(String::from_str("new actor id cannot be empty"));
    }
    let mut energy_balance: i64 = 1000;
    let mut operator_actor = String::from_str("root");
    proof {
        reveal_strlit("root");
    }
    let mut i: usize = 1;
    while i < args.len()
        invariant
            av == views_of(args@),
            1 <= i <= args@.len(),
            !crate::policy::is_blank(av[0]),
            seed_opts(av, i as int, (energy_balance, operator_actor@)) == seed_opts(
                av,
                1,
                (1000, "root"@),
            ),
        decreases args@.len() - i,
    {
        let a = args[i].as_str();
        if str_eq(a, "--energy") {
            match int_option(args, i, "--energy") {
                Ok(v) => {
                    if v < 0 {
                        return Err(String::from_str("--energy must be >= 0"));
                    }
                    energy_balance = v;
                },
                Err(e) => {
                    return Err(e);
                },
            }
            i = i + 2;
        } else if str_eq(a, "--as") {
            if args.len() - i < 2 {
                return Err(String::from_str("--as requires a value"));
            }
            operator_actor = args[i + 1].clone();
            i = i + 2;
        } else {
            return Err(concat("unknown seed-actor option: ", a));
        }
    }
    let mut inner: Vec<(String, JsonValue)> = Vec::new();
    push_entry(&mut inner, "actor_id", JsonValue::String(args[0].clone()));
    push_entry(&mut inner, "energy_balance", json_i64(energy_balance));
    let ghost iv = entries_of(inner@);
    let payload = json_object(inner);
    let ghost op = operator_actor@;
    let mut es: Vec<(String, JsonValue)> = Vec::new();
    push_entry(&mut es, "action_type", json_str("create"));
    push_entry(&mut es, "actor_id", JsonValue::String(operator_actor));
    push_entry(&mut es, "payload", payload);
    push_entry(&mut es, "target", json_str("ledger/actor"));
    proof {
        assert(iv =~= seq![
            ("actor_id"@, JsonView::String(av[0])),
            ("energy_balance"@, int_view(energy_balance)),
        ]);
        assert(entries_of(es@) =~= seq![
            ("action_type"@, JsonView::String("create"@)),
            ("actor_id"@, JsonView::String(op)),
            ("payload"@, JsonView::Object(iv)),
            ("target"@, JsonView::String("ledger/actor"@)),
        ]);
    }
    Ok(json_object(es))
}

/// The request of `seed-actor`: a submit request, under a fresh id.
pub fn build_seed_actor_request(args: Vec<String>) -> (r: Result<JsonValue, String>)
    ensures
        match seed_action_of(views_of(args@)) {
            Ok(p) => r matches Ok(v) && is_request(v@, "submit"@, p),
            Err(m) => r matches Err(e) && e@ == m,
        },
{
    match seed_actor_action(args.as_slice()) {
        Ok(p) => Ok(envelope("submit", p)),
        Err(e) => Err(e),
    }
}

/// The request of `quote '<action-json>'` or `submit '<action-json>'`, under
/// a fresh id; `parse_json` reads JSON text.
pub fn build_action_request<F: Fn(String) -> Option<JsonValue>>(
    request_type: &str,
    args: Vec<String>,
    parse_json: &F,
) -> (r: Result<JsonValue, String>)
    requires
        forall|s: String| parse_json.requires((s,)),
    ensures
        args@.len() != 1 ==> (r matches Err(e) && e@ == "usage: punkgo-cli "@ + request_type@
            + " '<action-json>'"@),
        args@.len() == 1 ==> match r {
            Ok(v) => exists|p: JsonValue|
                parse_json.ensures((args@[0],), Some(p)) && is_request(v@, request_type@, p@),
            Err(e) => parse_json.ensures((args@[0],), None) && e@ == "invalid action JSON: "@
                + args@[0]@,
        },
{
    if args.len() != 1 {
        let a = concat("usage: punkgo-cli ", request_type);
        return Err(concat(a.as_str(), " '<action-json>'"));
    }
    let text = args[0].clone();
    match parse_json(text) {
        Some(p) => {
            let ghost pv = p;
            let r = envelope(request_type, p);
            proof {
                assert(parse_json.ensures((args@[0],), Some(pv)));
            }
            Ok(r)
        },
        None => Err(concat("invalid action JSON: ", args[0].as_str())),
    }
}

/// Whether a request type is one of `quote`, `submit`, `read`.
pub open spec fn is_request_type(t: Seq<char>) -> bool {
    t == "quote"@ || t == "submit"@ || t == "read"@
}

/// The request of `send <quote|submit|read> '<payload-json>'`, under a fresh
/// id; `parse_json` reads JSON text.
pub fn build_send_request<F: Fn(String) -> Option<JsonValue>>(args: Vec<String>, parse_json: &F) -> (r:
    Result<JsonValue, String>)
    requires
        forall|s: String| parse_json.requires((s,)),
    ensures
        args@.len() != 2 ==> (r matches Err(e) && e@
            == "usage: punkgo-cli send <quote|submit|read> '<payload-json>'"@),
        args@.len() == 2 && !is_request_type(args@[0]@) ==> (r matches Err(e) && e@
            == "invalid request type: "@ + args@[0]@),
        args@.len() == 2 && is_request_type(args@[0]@) ==> match r {
            Ok(v) => exists|p: JsonValue|
                parse_json.ensures((args@[1],), Some(p)) && is_request(v@, args@[0]@, p@),
            Err(e) => parse_json.ensures((args@[1],), None) && e@ == "invalid payload JSON: "@
                + args@[1]@,
        },
{
    if args.len() != 2 {
        return Err(String::from_str("usage: punkgo-cli send <quote|submit|read> '<payload-json>'"));
    }
    let t = args[0].as_str();
    if !(str_eq(t, "quote") || str_eq(t, "submit") || str_eq(t, "read")) {
        return Err(concat("invalid request type: ", t));
    }
    let text = args[1].clone();
    match parse_json(text) {
        Some(p) => {
            let ghost pv = p;
            let r = envelope(t, p);
            proof {
                assert(parse_json.ensures((args@[1],), Some(pv)));
            }
            Ok(r)
        },
        None => Err(concat("invalid payload JSON: ", args[1].as_str())),
    }
}

/// Whether an object has an entry with the key.
pub open spec fn has_key(es: Seq<(Seq<char>, JsonView)>, key: Seq<char>) -> bool {
    exists|i: int| 0 <= i < es.len() && (#[trigger] es[i]).0 == key
}

/// Where a new key goes among entries kept in key order: before the first
/// key that sorts after it.
pub open spec fn insert_pos(es: Seq<(Seq<char>, JsonView)>, key: Seq<char>, from: int) -> int
    decreases es.len() - from,
{
    if from >= es.len() {
        es.len() as int
    } else if crate::json::text_lt(key, es[from].0) {
        from
    } else {
        insert_pos(es, key, from + 1)
    }
}

/// The entries with a new entry put in key order.
pub open spec fn with_entry(es: Seq<(Seq<char>, JsonView)>, key: Seq<char>, v: JsonView) -> Seq<
    (Seq<char>, JsonView),
> {
    es.insert(insert_pos(es, key, 0), (key, v))
}

proof fn lemma_insert_pos_range(es: Seq<(Seq<char>, JsonView)>, key: Seq<char>, from: int)
    requires
        0 <= from <= es.len(),
    ensures
        from <= insert_pos(es, key, from) <= es.len(),
    decreases es.len() - from,
{
    if from < es.len() && !crate::json::text_lt(key, es[from].0) {
        lemma_insert_pos_range(es, key, from + 1);
    }
}

/// Adds an entry whose key the object does not have, in key order.
fn insert_absent(es: Vec<(String, JsonValue)>, key: &str, v: JsonValue) -> (r: Vec<
    (String, JsonValue),
>)
    ensures
        entries_of(r@) == with_entry(entries_of(es@), key@, v@),
{
    let ghost ev = entries_of(es@);
    let mut pos: usize = 0;
    while pos < es.len() && !crate::json::str_lt(key, es[pos].0.as_str())
        invariant
            ev == entries_of(es@),
            pos <= es@.len(),
            insert_pos(ev, key@, pos as int) == insert_pos(ev, key@, 0),
        decreases es@.len() - pos,
    {
        pos = pos + 1;
    }
    let ghost kv = (key@, v@);
    let mut out = es;
    out.insert(pos, entry(key, v));
    proof {
        assert(entries_of(out@) =~= ev.insert(pos as int, kv));
    }
    out
}

/// The entries of a raw request once a missing request id (`id`) and a
/// missing payload (`{}`) are filled in; an error when it has no type.
pub open spec fn raw_entries(es: Seq<(Seq<char>, JsonView)>, id: Seq<char>) -> Result<
    Seq<(Seq<char>, JsonView)>,
    Seq<char>,
> {
    let e1 = if has_key(es, "request_id"@) {
        es
    } else {
        with_entry(es, "request_id"@, JsonView::String(id))
    };
    if !has_key(e1, "type"@) {
        Err("raw request missing required field: type"@)
    } else if has_key(e1, "payload"@) {
        Ok(e1)
    } else {
        Ok(with_entry(e1, "payload"@, JsonView::Object(Seq::empty())))
    }
}

/// A raw request once completed (see [`raw_entries`]), or why it is refused.
pub open spec fn raw_request_of(p: JsonView, id: Seq<char>) -> Result<JsonView, Seq<char>> {
    match p {
        JsonView::Object(es) => match raw_entries(es, id) {
            Ok(e) => Ok(JsonView::Object(e)),
            Err(m) => Err(m),
        },
        _ => Err("request JSON must be an object"@),
    }
}

fn has_key_exec(es: &Vec<(String, JsonValue)>, key: &str) -> (r: bool)
    ensures
        r == has_key(entries_of(es@), key@),
{
    let mut i: usize = 0;
    while i < es.len()
        invariant
            i <= es@.len(),
            forall|j: int| 0 <= j < i ==> es@[j].0@ != key@,
        decreases es@.len() - i,
    {
        if str_eq(es[i].0.as_str(), key) {
            proof {
                assert(entries_of(es@)[i as int].0 == key@);
            }
            return true;
        }
        i = i + 1;
    }
    proof {
        if has_key(entries_of(es@), key@) {
            let j = choose|j: int|
                0 <= j < entries_of(es@).len() && (#[trigger] entries_of(es@)[j]).0 == key@;
            assert(es@[j].0@ == key@);
        }
    }
    false
}

/// The request of `raw '<request-json>'`: the request must be an object with
/// a `type`; a missing `request_id` gets a fresh one and a missing `payload`
/// gets `{}`.  `parse_json` reads JSON text.
pub fn build_raw_request<F: Fn(String) -> Option<JsonValue>>(args: Vec<String>, parse_json: &F) -> (r:
    Result<JsonValue, String>)
    requires
        forall|s: String| parse_json.requires((s,)),
    ensures
        args@.len() != 1 ==> (r matches Err(e) && e@ == "usage: punkgo-cli raw '<request-json>'"@),
        args@.len() == 1 ==> match r {
            Ok(v) => exists|p: JsonValue, id: Seq<char>|
                parse_json.ensures((args@[0],), Some(p)) && #[trigger] raw_request_of(p@, id)
                    == Ok::<JsonView, Seq<char>>(v@),
            Err(e) => (parse_json.ensures((args@[0],), None) && e@ == "invalid request JSON: "@
                + args@[0]@) || exists|p: JsonValue, id: Seq<char>|
                parse_json.ensures((args@[0],), Some(p)) && #[trigger] raw_request_of(p@, id)
                    == Err::<JsonView, Seq<char>>(e@),
        },
{
    if args.len() != 1 {
        return Err(String::from_str("usage: punkgo-cli raw '<request-json>'"));
    }
    let text = args[0].clone();
    let parsed = parse_json(text);
    let p = match parsed {
        Some(p) => p,
        None => {
            return Err(concat("invalid request JSON: ", args[0].as_str()));
        },
    };
    let ghost pv = p;
    proof {
        assert(parse_json.ensures((args@[0],), Some(pv)));
    }
    let es = match p {
        JsonValue::Object(es) => es,
        _ => {
            proof {
                assert(raw_request_of(pv@, ""@) is Err);
            }
            return Err(String::from_str("request JSON must be an object"));
        },
    };
    proof {
        crate::json::lemma_entries_view_len(es@, es@.len());
        assert(entries_of(es@) =~= crate::json::entries_view(es@, es@.len()));
    }
    let ghost e0 = entries_of(es@);
    let id = request_id();
    let ghost idv = id@;
    let e1 = if has_key_exec(&es, "request_id") {
        es
    } else {
        insert_absent(es, "request_id", JsonValue::String(id))
    };
    if !has_key_exec(&e1, "type") {
        proof {
            assert(raw_entries(e0, idv) is Err);
            assert(raw_request_of(pv@, idv) is Err);
        }
        return Err(String::from_str("raw request missing required field: type"));
    }
    let e2 = if has_key_exec(&e1, "payload") {
        e1
    } else {
        insert_absent(e1, "payload", JsonValue::Object(Vec::new()))
    };
    let r = json_object(e2);
    proof {
        assert(entries_of(e2@) =~= raw_entries(e0, idv)->Ok_0) by {
            crate::json::lemma_entries_view_len(Seq::<(String, JsonValue)>::empty(), 0);
            assert(crate::json::entries_view(Seq::<(String, JsonValue)>::empty(), 0) =~= Seq::<
                (Seq<char>, JsonView),
            >::empty());
        }
        assert(r@->Object_0 =~= entries_of(e2@));
        assert(raw_request_of(pv@, idv) == Ok::<JsonView, Seq<char>>(r@));
    }
    Ok(r)
}

} // verus!
