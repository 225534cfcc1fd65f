//! Firewall rule state for the `iptables` family of utilities: the arguments of each call,
//! the reading of the utility's rule dump and version banner, and the order in which one
//! call is locked, run and released.

use crate::banner::{later_than, version_of};
use crate::caller::{fresh_call, IptablesCaller};
use crate::error::{AnalysisView, ErrorView, RIPTError, RIPTResult};
use crate::flags::rules_of;
use crate::iptparser::{iptables_version, parse_rules, rules_view, split_quoted};
use crate::rule::{Archive, RIPTRule, RuleView};
use crate::text::{decimal, decimal_of, holds, lossy_of, text_holds, text_lossy};
use crate::tokens::tokens_of;
use vstd::prelude::*;

pub mod banner;
pub mod builder;
pub mod caller;
pub mod error;
pub mod flags;
pub mod iptparser;
pub mod reader;
pub mod rule;
pub mod text;
pub mod tokens;
pub mod written;

verus! {

/// The utility for one family of addresses, and what its version can do.
#[derive(Debug, Clone, Copy)]
pub struct RIPTables {
    /// The name of the utility: `iptables` or `ip6tables`.
    pub cmd: &'static str,
    /// Whether the utility has the option `-C`, which checks that a rule exists.
    pub has_check: bool,
    /// Whether the utility has the option `--wait`, with which it waits for its own lock.
    pub has_wait: bool,
}

/// The name of the utility for the family of addresses.
pub open spec fn utility_of(ipv6: bool) -> Seq<char> {
    if ipv6 {
        "ip6tables"@
    } else {
        "iptables"@
    }
}

/// The name of the utility for the family of addresses.
pub fn utility(ipv6: bool) -> (cmd: &'static str)
    ensures
        cmd@ == utility_of(ipv6),
{
    if ipv6 {
        "ip6tables"
    } else {
        "iptables"
    }
}

/// What the utility of the given version can do: it checks rules from the version after
/// 1.4.10 on, and waits for its lock from the version after 1.4.19 on.
pub open spec fn tables_of(ipv6: bool, version: (i32, i32, i32), tables: RIPTables) -> bool {
    &&& tables.cmd@ == utility_of(ipv6)
    &&& tables.has_check == later_than(version, 1, 4, 10)
    &&& tables.has_wait == later_than(version, 1, 4, 19)
}

/// Whether `tables` is what the utility's answer to `--version` gives: its abilities if
/// the answer holds a version, and else the answer itself as a parse failure.
pub open spec fn tables_from(
    ipv6: bool,
    version_output: Seq<char>,
    tables: RIPTResult<RIPTables>,
) -> bool {
    match version_of(version_output) {
        Some(version) => tables is Ok && tables_of(ipv6, version, tables->Ok_0),
        None => tables matches Err(RIPTError::Parse(given)) && given@ == version_output,
    }
}

/// The utility for the family of addresses, with the abilities of the version that it
/// reported when called with `--version`.
pub fn new(ipv6: bool, version_output: String) -> (tables: RIPTResult<RIPTables>)
    ensures
        tables_from(ipv6, version_output@, tables),
{
    let cmd = utility(ipv6);
    match iptables_version(version_output) {
        Ok((v_major, v_minor, v_patch)) => Ok(
            RIPTables {
                cmd,
                has_check: (v_major > 1) || (v_major == 1 && v_minor > 4) || (v_major == 1
                    && v_minor == 4 && v_patch > 10),
                has_wait: (v_major > 1) || (v_major == 1 && v_minor > 4) || (v_major == 1
                    && v_minor == 4 && v_patch > 19),
            },
        ),
        Err(error) => Err(error),
    }
}

/// The utility for the family of addresses, with the abilities of the version that it
/// wrote to its output stream when called with `--version`. The bytes of the stream are
/// read as text, and bytes that are no UTF-8 are replaced, not refused.
pub fn from_version_output(ipv6: bool, stdout: &[u8]) -> (tables: RIPTResult<RIPTables>)
    ensures
        tables_from(ipv6, lossy_of(stdout@), tables),
{
    new(ipv6, text_lossy(stdout))
}

/// The abilities that one answer gives are the same whenever they are derived.
pub proof fn lemma_tables_repeat(
    ipv6: bool,
    version_output: Seq<char>,
    first: RIPTResult<RIPTables>,
    second: RIPTResult<RIPTables>,
)
    requires
        tables_from(ipv6, version_output, first),
        tables_from(ipv6, version_output, second),
    ensures
        first is Ok <==> second is Ok,
        first is Ok ==> {
            &&& first->Ok_0.cmd@ == second->Ok_0.cmd@
            &&& first->Ok_0.has_check == second->Ok_0.has_check
            &&& first->Ok_0.has_wait == second->Ok_0.has_wait
        },
        first is Err ==> {
            &&& first->Err_0 matches RIPTError::Parse(a)
            &&& second->Err_0 matches RIPTError::Parse(b)
            &&& a@ == b@
        },
{
}

/// The built-in chains of a table, in the order of the utility's manual; none for a
/// table that the utility does not have.
pub open spec fn builtin_chains_of(table: Seq<char>) -> Option<Seq<Seq<char>>> {
    if table == "filter"@ {
        Some(seq!["INPUT"@, "FORWARD"@, "OUTPUT"@])
    } else if table == "mangle"@ {
        Some(seq!["PREROUTING"@, "OUTPUT"@, "INPUT"@, "FORWARD"@, "POSTROUTING"@])
    } else if table == "nat"@ {
        Some(seq!["PREROUTING"@, "POSTROUTING"@, "OUTPUT"@])
    } else if table == "raw"@ {
        Some(seq!["PREROUTING"@, "OUTPUT"@])
    } else if table == "security"@ {
        Some(seq!["INPUT"@, "OUTPUT"@, "FORWARD"@])
    } else {
        None
    }
}

/// What is said of a table that the utility does not have.
pub open spec fn no_table_of() -> Seq<char> {
    "given table is not supported by iptables"@
}

/// What is said of a chain that is not built into its table.
pub open spec fn no_chain_of() -> Seq<char> {
    "given chain is not a default chain in the given table, can't get policy"@
}

/// The built-in chains of a table.
pub fn builtin_chains(table: &str) -> (chains: RIPTResult<Vec<&'static str>>)
    ensures
        match builtin_chains_of(table@) {
            Some(names) => chains is Ok && chains->Ok_0.deep_view() == names,
            None => chains is Err && chains->Err_0@ == ErrorView::Other(no_table_of()),
        },
{
    let mut chains: Vec<&'static str> = Vec::new();
    if table.eq("filter") {
        chains.push("INPUT");
        chains.push("FORWARD");
        chains.push("OUTPUT");
        assert(chains.deep_view() =~= seq!["INPUT"@, "FORWARD"@, "OUTPUT"@]);
    } else if table.eq("mangle") {
        chains.push("PREROUTING");
        chains.push("OUTPUT");
        chains.push("INPUT");
        chains.push("FORWARD");
        chains.push("POSTROUTING");
        assert(chains.deep_view() =~= seq![
            "PREROUTING"@,
            "OUTPUT"@,
            "INPUT"@,
            "FORWARD"@,
            "POSTROUTING"@,
        ]);
    } else if table.eq("nat") {
        chains.push("PREROUTING");
        chains.push("POSTROUTING");
        chains.push("OUTPUT");
        assert(chains.deep_view() =~= seq!["PREROUTING"@, "POSTROUTING"@, "OUTPUT"@]);
    } else if table.eq("raw") {
        chains.push("PREROUTING");
        chains.push("OUTPUT");
        assert(chains.deep_view() =~= seq!["PREROUTING"@, "OUTPUT"@]);
    } else if table.eq("security") {
        chains.push("INPUT");
        chains.push("OUTPUT");
        chains.push("FORWARD");
        assert(chains.deep_view() =~= seq!["INPUT"@, "OUTPUT"@, "FORWARD"@]);
    } else {
        return Err(RIPTError::Other("given table is not supported by iptables"));
    }
    Ok(chains)
}

/// The arguments of a call on `table`: the table, the flag that says what to do, and
/// what the flag takes.
pub open spec fn call_of(table: Seq<char>, flag: Seq<char>, rest: Seq<Seq<char>>) -> Seq<
    Seq<char>,
> {
    seq!["-t"@, table, flag] + rest
}

/// The arguments of a call on a built-in chain of `table`, or why there is no such call:
/// the table is not one of the utility's, or the chain is not built into it.
pub open spec fn builtin_call_of(
    table: Seq<char>,
    flag: Seq<char>,
    chain: Seq<char>,
    rest: Seq<Seq<char>>,
) -> Result<Seq<Seq<char>>, ErrorView> {
    match builtin_chains_of(table) {
        None => Err(ErrorView::Other(no_table_of())),
        Some(names) => if names.contains(chain) {
            Ok(call_of(table, flag, seq![chain] + rest))
        } else {
            Err(ErrorView::Other(no_chain_of()))
        },
    }
}

/// The arguments of a call, or the reason why it is not made, as plain values.
pub open spec fn call_view(call: RIPTResult<Vec<String>>) -> Result<Seq<Seq<char>>, ErrorView> {
    match call {
        Ok(args) => Ok(args.deep_view()),
        Err(error) => Err(error@),
    }
}

/// The arguments of a call on `table`.
fn call(table: &str, flag: &str, rest: Vec<String>) -> (args: Vec<String>)
    ensures
        args.deep_view() == call_of(table@, flag@, rest.deep_view()),
{
    let mut args: Vec<String> = Vec::new();
    let mut rest = rest;
    let ghost words = rest.deep_view();
    args.push(str::to_owned("-t"));
    args.push(str::to_owned(table));
    args.push(str::to_owned(flag));
    args.append(&mut rest);
    assert(args.deep_view() =~= call_of(table@, flag@, words));
    args
}

/// The words of `rule` behind `head`.
fn with_rule(head: Vec<String>, rule: &str) -> (args: Vec<String>)
    ensures
        args.deep_view() == head.deep_view() + tokens_of(rule@),
{
    let mut args = head;
    let ghost before = args.deep_view();
    let mut words = split_quoted(rule);
    let ghost added = words.deep_view();
    args.append(&mut words);
    assert(args.deep_view() =~= before + added);
    args
}

/// One word.
fn one(word: &str) -> (words: Vec<String>)
    ensures
        words.deep_view() == seq![word@],
{
    let mut words: Vec<String> = Vec::new();
    words.push(str::to_owned(word));
    assert(words.deep_view() =~= seq![word@]);
    words
}

/// Two words.
fn two(first: &str, second: &str) -> (words: Vec<String>)
    ensures
        words.deep_view() == seq![first@, second@],
{
    let mut words: Vec<String> = Vec::new();
    words.push(str::to_owned(first));
    words.push(str::to_owned(second));
    assert(words.deep_view() =~= seq![first@, second@]);
    words
}

/// The arguments of a call on a built-in chain of `table`.
fn builtin_call(table: &str, flag: &str, chain: &str, rest: Vec<String>) -> (args: RIPTResult<
    Vec<String>,
>)
    ensures
        call_view(args) == builtin_call_of(table@, flag@, chain@, rest.deep_view()),
{
    let chains = match builtin_chains(table) {
        Ok(chains) => chains,
        Err(error) => {
            return Err(error);
        },
    };
    let ghost names = chains.deep_view();
    let mut found = false;
    let mut i: usize = 0;
    while i < chains.len()
        invariant
            0 <= i <= chains.len(),
            names == chains.deep_view(),
            found == (exists|k: int| 0 <= k < i && #[trigger] names[k] == chain@),
        decreases chains.len() - i,
    {
        assert(names[i as int] == chains@[i as int]@);
        if chains[i].eq(chain) {
            found = true;
        }
        i = i + 1;
    }
    if !found {
        return Err(
            RIPTError::Other(
                "given chain is not a default chain in the given table, can't get policy",
            ),
        );
    }
    let mut words = one(chain);
    let mut rest = rest;
    let ghost tail = rest.deep_view();
    words.append(&mut rest);
    assert(words.deep_view() =~= seq![chain@] + tail);
    Ok(call(table, flag, words))
}

/// Whether the utility did what it was asked: it says so by the exit code zero.
pub fn accepted(code: i32) -> (yes: bool)
    ensures
        yes == (code == 0),
{
    code == 0
}

/// What a listing gives: the rules of the utility's output, read as the dump of `table`;
/// or what the utility wrote if its exit code is not zero; or the line of the dump that
/// is no rule.
pub open spec fn listing_of(table: Seq<char>, code: i32, output: Seq<char>) -> Result<
    Seq<RuleView>,
    ErrorView,
> {
    if code != 0 {
        Err(ErrorView::Stderr(output))
    } else {
        match rules_of(table, output) {
            Ok(rules) => Ok(rules),
            Err(line) => Err(ErrorView::Analysis(AnalysisView::UnexpectedOutput(line))),
        }
    }
}

/// A listing as plain values.
pub open spec fn listing_view(listing: RIPTResult<Vec<RIPTRule>>) -> Result<
    Seq<RuleView>,
    ErrorView,
> {
    match listing {
        Ok(rules) => Ok(rules_view(rules@)),
        Err(error) => Err(error@),
    }
}

/// Reads what the utility answered to a listing of `table`: the exit code and the text
/// that goes with it.
pub fn listing(table: String, code: i32, output: String) -> (rules: RIPTResult<Vec<RIPTRule>>)
    ensures
        listing_view(rules) == listing_of(table@, code, output@),
{
    if code != 0 {
        return Err(RIPTError::Stderr(output));
    }
    match parse_rules(table, output) {
        Ok(rules) => Ok(rules),
        Err(error) => Err(RIPTError::from(error)),
    }
}

/// The target of the first rule that sets the policy of `chain`, if there is one.
pub open spec fn policy_in(rules: Seq<RuleView>, chain: Seq<char>) -> Option<Seq<char>>
    decreases rules.len(),
{
    if rules.len() == 0 {
        None
    } else if rules[0].archive == Archive::Policy && rules[0].chain == chain {
        Some(rules[0].jump)
    } else {
        policy_in(rules.drop_first(), chain)
    }
}

/// The chains that the rules declare, built in or made by the user, in their order.
pub open spec fn chains_in(rules: Seq<RuleView>) -> Seq<Seq<char>>
    decreases rules.len(),
{
    if rules.len() == 0 {
        Seq::empty()
    } else {
        let before = chains_in(rules.drop_last());
        let rule = rules.last();
        if rule.archive == Archive::Policy || rule.archive == Archive::NewChain {
            before.push(rule.chain)
        } else {
            before
        }
    }
}

/// An optional text as plain values.
pub open spec fn text_view(text: Option<String>) -> Option<Seq<char>> {
    match text {
        Some(t) => Some(t@),
        None => None,
    }
}

/// The policy of `chain` among the rules of a listing.
pub fn policy(rules: &Vec<RIPTRule>, chain: &str) -> (target: Option<String>)
    ensures
        text_view(target) == policy_in(rules_view(rules@), chain@),
{
    let ghost views = rules_view(rules@);
    let mut i: usize = 0;
    assert(views.skip(0) =~= views);
    while i < rules.len()
        invariant
            0 <= i <= rules.len(),
            views == rules_view(rules@),
            policy_in(views, chain@) == policy_in(views.skip(i as int), chain@),
        decreases rules.len() - i,
    {
        let rule = &rules[i];
        assert(views.skip(i as int)[0] == rule@);
        assert(views.skip(i as int).drop_first() =~= views.skip(i + 1));
        if rule.archive == Archive::Policy && rule.chain.as_str().eq(chain) {
            return Some(rule.jump.clone());
        }
        i = i + 1;
    }
    None
}

/// The chains that the rules of a listing declare.
pub fn chains(rules: &Vec<RIPTRule>) -> (names: Vec<String>)
    ensures
        names.deep_view() == chains_in(rules_view(rules@)),
{
    let ghost views = rules_view(rules@);
    let mut names: Vec<String> = Vec::new();
    let mut i: usize = 0;
    assert(views.take(0) =~= Seq::<RuleView>::empty());
    assert(names.deep_view() =~= Seq::<Seq<char>>::empty());
    while i < rules.len()
        invariant
            0 <= i <= rules.len(),
            views == rules_view(rules@),
            names.deep_view() == chains_in(views.take(i as int)),
        decreases rules.len() - i,
    {
        let rule = &rules[i];
        let ghost before = names.deep_view();
        assert(views.take(i + 1).drop_last() =~= views.take(i as int));
        assert(views.take(i + 1).last() == rule@);
        if rule.archive == Archive::Policy || rule.archive == Archive::NewChain {
            let name = rule.chain.clone();
            names.push(name);
            assert(names.deep_view() =~= before.push(name@));
        }
        i = i + 1;
    }
    assert(views.take(rules.len() as int) =~= views);
    names
}

/// One of the calls that a verb of several calls is made of.
#[derive(Debug, Clone, Copy, PartialEq, Eq, Structural)]
pub enum Basic {
    /// Whether the rule stands in the chain.
    Exists,
    /// Put the rule at its position.
    Insert,
    /// Put the rule at the end.
    Append,
    /// Take the rule out.
    Delete,
}

/// How far a verb of several calls has come: which of its calls was answered last.
#[derive(Debug, Clone, Copy, PartialEq, Eq, Structural)]
pub enum Stage {
    /// None yet.
    Begun,
    /// Whether the rule exists.
    Asked,
    /// The removal of the rule.
    Removed,
    /// The adding of the rule.
    Added,
}

/// What a verb of several calls does next.
#[derive(Debug, Clone, Copy, PartialEq, Eq, Structural)]
pub enum Turn {
    /// Make this call; the verb is at this stage once the call is answered.
    Run(Basic, Stage),
    /// The verb is done, with this answer.
    Answer(bool),
}

/// The turns of a verb that adds a rule unless it is there: it asks whether the rule
/// exists; if so it is done and says yes; else it adds the rule and says what the adding
/// said.
pub open spec fn unique_turn_of(add: Basic, stage: Stage, last: bool) -> Turn {
    match stage {
        Stage::Begun => Turn::Run(Basic::Exists, Stage::Asked),
        Stage::Asked => if last {
            Turn::Answer(true)
        } else {
            Turn::Run(add, Stage::Added)
        },
        Stage::Removed | Stage::Added => Turn::Answer(last),
    }
}

/// The turns of the verb that puts a rule at the end of its chain, taking it out first
/// where it stands already: it asks whether the rule exists; if so it removes it, and is
/// done with the answer no if that fails; then it appends the rule and says what the
/// appending said.
pub open spec fn append_replace_turn_of(stage: Stage, last: bool) -> Turn {
    match stage {
        Stage::Begun => Turn::Run(Basic::Exists, Stage::Asked),
        Stage::Asked => if last {
            Turn::Run(Basic::Delete, Stage::Removed)
        } else {
            Turn::Run(Basic::Append, Stage::Added)
        },
        Stage::Removed => if last {
            Turn::Run(Basic::Append, Stage::Added)
        } else {
            Turn::Answer(false)
        },
        Stage::Added => Turn::Answer(last),
    }
}

/// The turns of the verb that takes out every copy of a rule: as long as the rule
/// exists it removes it, whatever the removal says, and asks again; when the rule is
/// gone it is done and says yes.
pub open spec fn delete_all_turn_of(stage: Stage, last: bool) -> Turn {
    match stage {
        Stage::Begun | Stage::Removed => Turn::Run(Basic::Exists, Stage::Asked),
        Stage::Asked => if last {
            Turn::Run(Basic::Delete, Stage::Removed)
        } else {
            Turn::Answer(true)
        },
        Stage::Added => Turn::Answer(true),
    }
}

/// The next turn of a verb that adds a rule unless it is there.
fn unique_turn(add: Basic, stage: Stage, last: bool) -> (turn: Turn)
    ensures
        turn == unique_turn_of(add, stage, last),
{
    match stage {
        Stage::Begun => Turn::Run(Basic::Exists, Stage::Asked),
        Stage::Asked => {
            if last {
                Turn::Answer(true)
            } else {
                Turn::Run(add, Stage::Added)
            }
        },
        Stage::Removed | Stage::Added => Turn::Answer(last),
    }
}

/// The line with which a dump shows that `rule` stands in `chain`.
pub open spec fn appended_line_of(chain: Seq<char>, rule: Seq<char>) -> Seq<char> {
    "-A "@ + chain + " "@ + rule
}

impl RIPTables {
    /// A call of the utility with `args`, not yet begun.
    pub fn execute(&self, args: Vec<String>) -> (caller: IptablesCaller)
        ensures
            caller@ == fresh_call(self.cmd@, args.deep_view(), self.has_wait),
    {
        IptablesCaller::new(self.cmd, args, self.has_wait)
    }

    /// The next turn of the verb that puts a rule at a position unless the rule stands
    /// in the chain: `stage` says which call was answered last, and `last` how.
    pub fn insert_unique(&self, stage: Stage, last: bool) -> (turn: Turn)
        ensures
            turn == unique_turn_of(Basic::Insert, stage, last),
    {
        unique_turn(Basic::Insert, stage, last)
    }

    /// The next turn of the verb that puts a rule at the end of the chain unless the
    /// rule stands in it: `stage` says which call was answered last, and `last` how.
    pub fn append_unique(&self, stage: Stage, last: bool) -> (turn: Turn)
        ensures
            turn == unique_turn_of(Basic::Append, stage, last),
    {
        unique_turn(Basic::Append, stage, last)
    }

    /// The next turn of the verb that puts a rule at the end of the chain and takes it
    /// out first where it stands already: `stage` says which call was answered last, and
    /// `last` how.
    pub fn append_replace(&self, stage: Stage, last: bool) -> (turn: Turn)
        ensures
            turn == append_replace_turn_of(stage, last),
    {
        match stage {
            Stage::Begun => Turn::Run(Basic::Exists, Stage::Asked),
            Stage::Asked => {
                if last {
                    Turn::Run(Basic::Delete, Stage::Removed)
                } else {
                    Turn::Run(Basic::Append, Stage::Added)
                }
            },
            Stage::Removed => {
                if last {
                    Turn::Run(Basic::Append, Stage::Added)
                } else {
                    Turn::Answer(false)
                }
            },
            Stage::Added => Turn::Answer(last),
        }
    }

    /// The next turn of the verb that takes every copy of a rule out of the chain:
    /// `stage` says which call was answered last, and `last` how.
    pub fn delete_all(&self, stage: Stage, last: bool) -> (turn: Turn)
        ensures
            turn == delete_all_turn_of(stage, last),
    {
        match stage {
            Stage::Begun | Stage::Removed => Turn::Run(Basic::Exists, Stage::Asked),
            Stage::Asked => {
                if last {
                    Turn::Run(Basic::Delete, Stage::Removed)
                } else {
                    Turn::Answer(true)
                }
            },
            Stage::Added => Turn::Answer(true),
        }
    }

    /// The arguments of the call that shows the policy of a built-in chain; the answer
    /// is a listing, in which `policy` finds it.
    pub fn get_policy(&self, table: &str, chain: &str) -> (args: RIPTResult<Vec<String>>)
        ensures
            call_view(args) == builtin_call_of(table@, "-S"@, chain@, Seq::empty()),
    {
        let rest: Vec<String> = Vec::new();
        assert(rest.deep_view() =~= Seq::<Seq<char>>::empty());
        builtin_call(table, "-S", chain, rest)
    }

    /// The arguments of the call that sets the policy of a built-in chain.
    pub fn set_policy(&self, table: &str, chain: &str, policy: &str) -> (args: RIPTResult<
        Vec<String>,
    >)
        ensures
            call_view(args) == builtin_call_of(table@, "-P"@, chain@, seq![policy@]),
    {
        builtin_call(table, "-P", chain, one(policy))
    }

    /// The arguments of the call that puts `rule` at `position` in the chain.
    pub fn insert(&self, table: &str, chain: &str, rule: &str, position: i32) -> (args: Vec<
        String,
    >)
        ensures
            args.deep_view() == call_of(
                table@,
                "-I"@,
                seq![chain@, decimal_of(position as int)] + tokens_of(rule@),
            ),
    {
        let pstr = decimal(position);
        call(table, "-I", with_rule(two(chain, pstr.as_str()), rule))
    }

    /// The arguments of the call that puts `rule` in the place of the rule at `position`.
    pub fn replace(&self, table: &str, chain: &str, rule: &str, position: i32) -> (args: Vec<
        String,
    >)
        ensures
            args.deep_view() == call_of(
                table@,
                "-R"@,
                seq![chain@, decimal_of(position as int)] + tokens_of(rule@),
            ),
    {
        let pstr = decimal(position);
        call(table, "-R", with_rule(two(chain, pstr.as_str()), rule))
    }

    /// The arguments of the call that puts `rule` at the end of the chain.
    pub fn append(&self, table: &str, chain: &str, rule: &str) -> (args: Vec<String>)
        ensures
            args.deep_view() == call_of(table@, "-A"@, seq![chain@] + tokens_of(rule@)),
    {
        call(table, "-A", with_rule(one(chain), rule))
    }

    /// The arguments of the call that takes `rule` out of the chain, once.
    pub fn delete(&self, table: &str, chain: &str, rule: &str) -> (args: Vec<String>)
        ensures
            args.deep_view() == call_of(table@, "-D"@, seq![chain@] + tokens_of(rule@)),
    {
        call(table, "-D", with_rule(one(chain), rule))
    }

    /// The arguments of the call that tells whether `rule` stands in the chain: a check
    /// of the rule where the utility has one, and a listing of the table where it has
    /// not. `exists_rule_answer` reads the answer.
    pub fn exists_rule(&self, table: &str, chain: &str, rule: &str) -> (args: Vec<String>)
        ensures
            args.deep_view() == if self.has_check {
                call_of(table@, "-C"@, seq![chain@] + tokens_of(rule@))
            } else {
                call_of(table@, "-S"@, Seq::empty())
            },
    {
        if !self.has_check {
            return self.exists_old_version(table);
        }
        call(table, "-C", with_rule(one(chain), rule))
    }

    /// The arguments of the listing in which a utility without a check shows its rules.
    fn exists_old_version(&self, table: &str) -> (args: Vec<String>)
        ensures
            args.deep_view() == call_of(table@, "-S"@, Seq::empty()),
    {
        self.list(table)
    }

    /// Whether the answer to the call of `exists_rule` says that `rule` stands in the chain.
    /// A check says so by the exit code zero. A listing says so, if its exit code is
    /// zero, by holding the line that appends the rule to the chain, as it was given.
    pub fn exists_rule_answer(&self, chain: &str, rule: &str, code: i32, output: &str) -> (found: bool)
        ensures
            found == if self.has_check {
                code == 0
            } else {
                code == 0 && holds(output@, appended_line_of(chain@, rule@))
            },
    {
        if self.has_check {
            return code == 0;
        }
        if code != 0 {
            return false;
        }
        let mut line = str::to_owned("-A ");
        line.append(chain);
        line.append(" ");
        line.append(rule);
        text_holds(output, line.as_str())
    }

    /// The arguments of the call that lists the rules of a table.
    pub fn list(&self, table: &str) -> (args: Vec<String>)
        ensures
            args.deep_view() == call_of(table@, "-S"@, Seq::empty()),
    {
        let rest: Vec<String> = Vec::new();
        assert(rest.deep_view() =~= Seq::<Seq<char>>::empty());
        call(table, "-S", rest)
    }

    /// The arguments of the call whose listing names the chains of a table; `chains`
    /// finds them in it.
    pub fn chain_names(&self, table: &str) -> (args: Vec<String>)
        ensures
            args.deep_view() == call_of(table@, "-S"@, Seq::empty()),
    {
        self.list(table)
    }

    /// The arguments of the call that lists the rules of one chain.
    pub fn list_chains(&self, table: &str, chain: &str) -> (args: Vec<String>)
        ensures
            args.deep_view() == call_of(table@, "-S"@, seq![chain@]),
    {
        call(table, "-S", one(chain))
    }

    /// The arguments of the call that makes a chain.
    pub fn new_chain(&self, table: &str, chain: &str) -> (args: Vec<String>)
        ensures
            args.deep_view() == call_of(table@, "-N"@, seq![chain@]),
    {
        call(table, "-N", one(chain))
    }

    /// The arguments of the call that removes a chain that the user made.
    pub fn delete_chain(&self, table: &str, chain: &str) -> (args: Vec<String>)
        ensures
            args.deep_view() == call_of(table@, "-X"@, seq![chain@]),
    {
        call(table, "-X", one(chain))
    }

    /// The arguments of the call that gives a chain another name.
    pub fn rename_chain(&self, table: &str, old_chain: &str, new_chain: &str) -> (args: Vec<
        String,
    >)
        ensures
            args.deep_view() == call_of(table@, "-E"@, seq![old_chain@, new_chain@]),
    {
        call(table, "-E", two(old_chain, new_chain))
    }

    /// The arguments of the call that takes every rule out of a chain.
    pub fn flush_chain(&self, table: &str, chain: &str) -> (args: Vec<String>)
        ensures
            args.deep_view() == call_of(table@, "-F"@, seq![chain@]),
    {
        call(table, "-F", one(chain))
    }

    /// The arguments of the call that tells, by being accepted, that a chain exists.
    pub fn exists_chain(&self, table: &str, chain: &str) -> (args: Vec<String>)
        ensures
            args.deep_view() == call_of(table@, "-L"@, seq![chain@]),
    {
        call(table, "-L", one(chain))
    }

    /// The arguments of the call that takes every rule out of every chain of a table.
    pub fn flush_table(&self, table: &str) -> (args: Vec<String>)
        ensures
            args.deep_view() == call_of(table@, "-F"@, Seq::empty()),
    {
        let rest: Vec<String> = Vec::new();
        assert(rest.deep_view() =~= Seq::<Seq<char>>::empty());
        call(table, "-F", rest)
    }

    /// The arguments of the call that lists the rules of a table.
    pub fn list_tables(&self, table: &str) -> (args: Vec<String>)
        ensures
            args.deep_view() == call_of(table@, "-S"@, Seq::empty()),
    {
        self.list(table)
    }
}

} // verus!
