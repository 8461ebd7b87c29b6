//! The decoder registry.
//!
//! A [`Matcher`] maps a deployer address to a table of 4-byte selectors; each
//! selector owns a decoding rule built from a [`ContractDeployArgs`]
//! configuration: the compiled bytecode that precedes the constructor
//! arguments in a deployment's input data, the textual ABI schema of those
//! arguments, and the metadata that a verification request carries. A lookup
//! finds the rule for the payload's selector, strips the bytecode prefix and
//! ABI-decodes the remaining bytes against the schema.

use vstd::prelude::*;

use vstd::array::array_index_get;
use vstd::slice::slice_subrange;

use alloy_dyn_abi::DynSolValue;

use crate::abi::decode_of;
use crate::abi::decode_params;
use crate::abi::encode_params;
use crate::abi::encoded_params_of;
use crate::abi::schema_ok;
use crate::abi::schema_parses;

verus! {

/// A deployer address: the host's fixed-width byte identifier (20 bytes on
/// the target chain). The registry itself is width-agnostic: it compares
/// addresses byte for byte and never reads into them, so the width is the
/// host's concern.
pub struct Address {
    pub bytes: Vec<u8>,
}

impl View for Address {
    type V = Seq<u8>;

    open spec fn view(&self) -> Seq<u8> {
        self.bytes@
    }
}

/// The source format that a verification request declares.
#[derive(Clone, Copy, Debug, PartialEq, Eq, Structural)]
pub enum CodeFormat {
    SingleFile,
    StandardJsonInput,
    VyperJson,
}

/// The configuration of one decoding rule.
pub struct ContractDeployArgs {
    pub factory_selector: [u8; 4],
    pub init_code_without_args: Vec<u8>,
    pub source: String,
    pub code_format: CodeFormat,
    pub param_types: String,
    pub contract_name: String,
    pub compiler_version: String,
    pub optimizations_used: Option<String>,
    pub runs: Option<String>,
    pub evm_version: Option<String>,
    pub via_ir: Option<bool>,
}

/// The mathematical model of one decoding rule.
pub struct RuleModel {
    pub prefix: Seq<u8>,
    pub schema: Seq<char>,
    pub source: Seq<char>,
    pub code_format: CodeFormat,
    pub contract_name: Seq<char>,
    pub compiler_version: Seq<char>,
    pub optimizations_used: Option<Seq<char>>,
    pub runs: Option<Seq<char>>,
    pub evm_version: Option<Seq<char>>,
    pub via_ir: Option<bool>,
}

/// The view of an optional string.
pub open spec fn opt_view(o: Option<String>) -> Option<Seq<char>> {
    match o {
        Some(s) => Some(s@),
        None => None,
    }
}

/// The rule that a configuration describes.
pub open spec fn args_model(cfg: ContractDeployArgs) -> RuleModel {
    RuleModel {
        prefix: cfg.init_code_without_args@,
        schema: cfg.param_types@,
        source: cfg.source@,
        code_format: cfg.code_format,
        contract_name: cfg.contract_name@,
        compiler_version: cfg.compiler_version@,
        optimizations_used: opt_view(cfg.optimizations_used),
        runs: opt_view(cfg.runs),
        evm_version: opt_view(cfg.evm_version),
        via_ir: cfg.via_ir,
    }
}

/// The selector table that a configuration list builds, last write winning.
pub open spec fn inner_model(cfgs: Seq<ContractDeployArgs>) -> Map<Seq<u8>, RuleModel>
    decreases cfgs.len(),
{
    if cfgs.len() == 0 {
        Map::empty()
    } else {
        inner_model(cfgs.drop_last()).insert(
            cfgs.last().factory_selector@,
            args_model(cfgs.last()),
        )
    }
}

/// The registry that a configuration list builds. A repeated address extends
/// that address's selector table: registration is last-write-wins per
/// `(address, selector)` pair, so an entry never displaces another pair's
/// rule.
pub open spec fn registry_model(entries: Seq<(Address, Vec<ContractDeployArgs>)>) -> Map<
    Seq<u8>,
    Map<Seq<u8>, RuleModel>,
>
    decreases entries.len(),
{
    if entries.len() == 0 {
        Map::empty()
    } else {
        let m = registry_model(entries.drop_last());
        let prior = if m.contains_key(entries.last().0@) {
            m[entries.last().0@]
        } else {
            Map::empty()
        };
        m.insert(entries.last().0@, prior.union_prefer_right(inner_model(entries.last().1@)))
    }
}

/// What one rule makes of a payload: if the payload is long enough to hold
/// the bytecode prefix, the bytes after the prefix are decoded against the
/// schema; otherwise there is no match.
pub open spec fn rule_decode(prefix: Seq<u8>, schema: Seq<char>, payload: Seq<u8>) -> Option<
    DynSolValue,
> {
    if payload.len() >= prefix.len() {
        decode_of(schema, payload.skip(prefix.len() as int))
    } else {
        None
    }
}

/// Registry construction is last-write-wins: among configurations that share
/// a selector, the most recently inserted one is the rule that the table
/// holds.
pub proof fn lemma_last_write_wins(cfgs: Seq<ContractDeployArgs>, i: int)
    requires
        0 <= i < cfgs.len(),
        forall|j: int|
            i < j < cfgs.len() ==> (#[trigger] cfgs[j]).factory_selector@
                != cfgs[i].factory_selector@,
    ensures
        inner_model(cfgs).contains_key(cfgs[i].factory_selector@),
        inner_model(cfgs)[cfgs[i].factory_selector@] == args_model(cfgs[i]),
    decreases cfgs.len(),
{
    if i < cfgs.len() - 1 {
        assert(cfgs.drop_last()[i] == cfgs[i]);
        assert(forall|j: int|
            i < j < cfgs.drop_last().len() ==> (#[trigger] cfgs.drop_last()[j]).factory_selector@
                != cfgs.drop_last()[i].factory_selector@);
        lemma_last_write_wins(cfgs.drop_last(), i);
    }
}

/// A selector that no configuration of a list carries is absent from the
/// table the list builds.
proof fn lemma_inner_model_absent(cfgs: Seq<ContractDeployArgs>, s: Seq<u8>)
    requires
        forall|j: int| 0 <= j < cfgs.len() ==> (#[trigger] cfgs[j]).factory_selector@ != s,
    ensures
        !inner_model(cfgs).contains_key(s),
    decreases cfgs.len(),
{
    if cfgs.len() > 0 {
        assert(forall|j: int|
            0 <= j < cfgs.drop_last().len() ==> (#[trigger] cfgs.drop_last()[j]).factory_selector@
                != s);
        lemma_inner_model_absent(cfgs.drop_last(), s);
    }
}

/// Registration is last-write-wins per (address, selector) pair across the
/// whole configuration list: the rule the registry holds under a pair comes
/// from the most recent configuration for that pair, and configurations for
/// other pairs never displace it.
pub proof fn lemma_pair_last_write_wins(
    entries: Seq<(Address, Vec<ContractDeployArgs>)>,
    i: int,
    j: int,
)
    requires
        0 <= i < entries.len(),
        0 <= j < entries[i].1@.len(),
        forall|j2: int|
            j < j2 < entries[i].1@.len() ==> (#[trigger] entries[i].1@[j2]).factory_selector@
                != entries[i].1@[j].factory_selector@,
        forall|i2: int, j2: int|
            i < i2 < entries.len() && 0 <= j2 < entries[i2].1@.len() && entries[i2].0@
                == entries[i].0@ ==> (#[trigger] entries[i2].1@[j2]).factory_selector@
                != entries[i].1@[j].factory_selector@,
    ensures
        registry_model(entries).contains_key(entries[i].0@),
        registry_model(entries)[entries[i].0@].contains_key(entries[i].1@[j].factory_selector@),
        registry_model(entries)[entries[i].0@][entries[i].1@[j].factory_selector@] == args_model(
            entries[i].1@[j],
        ),
    decreases entries.len(),
{
    let a = entries[i].0@;
    let s = entries[i].1@[j].factory_selector@;
    if i == entries.len() - 1 {
        assert(entries.last() == entries[i]);
        lemma_last_write_wins(entries[i].1@, j);
    } else {
        let last = entries.last();
        let rest = entries.drop_last();
        assert(forall|i2: int| 0 <= i2 < rest.len() ==> rest[i2] == entries[i2]);
        lemma_pair_last_write_wins(rest, i, j);
        if last.0@ == a {
            assert(entries[entries.len() - 1] == last);
            assert(forall|j2: int|
                0 <= j2 < last.1@.len() ==> (#[trigger] last.1@[j2]).factory_selector@ != s);
            lemma_inner_model_absent(last.1@, s);
        }
    }
}

/// Every selector of the built table comes from some configuration, and its
/// rule is that configuration's.
proof fn lemma_inner_model_key(cfgs: Seq<ContractDeployArgs>, s: Seq<u8>)
    requires
        inner_model(cfgs).contains_key(s),
    ensures
        exists|j: int|
            0 <= j < cfgs.len() && (#[trigger] cfgs[j]).factory_selector@ == s && inner_model(
                cfgs,
            )[s] == args_model(cfgs[j]),
    decreases cfgs.len(),
{
    if cfgs.len() > 0 {
        if cfgs.last().factory_selector@ == s {
            assert(cfgs[cfgs.len() - 1].factory_selector@ == s);
        } else {
            lemma_inner_model_key(cfgs.drop_last(), s);
            let j = choose|j: int|
                0 <= j < cfgs.drop_last().len() && (#[trigger] cfgs.drop_last()[j]).factory_selector@
                    == s && inner_model(cfgs.drop_last())[s] == args_model(cfgs.drop_last()[j]);
            assert(cfgs[j] == cfgs.drop_last()[j]);
        }
    }
}

/// Every pair of the built registry comes from some configuration, and its
/// rule is that configuration's.
proof fn lemma_registry_model_pair(
    entries: Seq<(Address, Vec<ContractDeployArgs>)>,
    a: Seq<u8>,
    s: Seq<u8>,
)
    requires
        registry_model(entries).contains_key(a),
        registry_model(entries)[a].contains_key(s),
    ensures
        exists|i: int, j: int|
            0 <= i < entries.len() && entries[i].0@ == a && 0 <= j < entries[i].1@.len() && (
            #[trigger] entries[i].1@[j]).factory_selector@ == s && registry_model(entries)[a][s]
                == args_model(entries[i].1@[j]),
    decreases entries.len(),
{
    let last = entries.last();
    let rest = entries.drop_last();
    assert(forall|i2: int| 0 <= i2 < rest.len() ==> rest[i2] == entries[i2]);
    if last.0@ == a && inner_model(last.1@).contains_key(s) {
        lemma_inner_model_key(last.1@, s);
        let j = choose|j: int|
            0 <= j < last.1@.len() && (#[trigger] last.1@[j]).factory_selector@ == s
                && inner_model(last.1@)[s] == args_model(last.1@[j]);
        let i = entries.len() - 1;
        assert(entries[i] == last);
        assert(entries[i].0@ == a && 0 <= j < entries[i].1@.len()
            && entries[i].1@[j].factory_selector@ == s && registry_model(entries)[a][s]
            == args_model(entries[i].1@[j]));
    } else {
        assert(registry_model(rest).contains_key(a));
        assert(registry_model(entries)[a][s] == registry_model(rest)[a][s]);
        lemma_registry_model_pair(rest, a, s);
        let (i, j) = choose|i: int, j: int|
            0 <= i < rest.len() && rest[i].0@ == a && 0 <= j < rest[i].1@.len() && (
            #[trigger] rest[i].1@[j]).factory_selector@ == s && registry_model(rest)[a][s]
                == args_model(rest[i].1@[j]);
        assert(entries[i] == rest[i]);
        assert(entries[i].0@ == a && 0 <= j < entries[i].1@.len()
            && entries[i].1@[j].factory_selector@ == s && registry_model(entries)[a][s]
            == args_model(entries[i].1@[j]));
    }
}

/// One decoding rule: the bytecode prefix, the schema (held as the text it
/// was built from, which is known to parse), and the verification metadata.
struct Encoder {
    compiled_bytecode: Vec<u8>,
    param_types: String,
    source: String,
    code_format: CodeFormat,
    contract_name: String,
    compiler_version: String,
    optimizations_used: Option<String>,
    runs: Option<String>,
    evm_version: Option<String>,
    via_ir: Option<bool>,
}

impl View for Encoder {
    type V = RuleModel;

    closed spec fn view(&self) -> RuleModel {
        RuleModel {
            prefix: self.compiled_bytecode@,
            schema: self.param_types@,
            source: self.source@,
            code_format: self.code_format,
            contract_name: self.contract_name@,
            compiler_version: self.compiler_version@,
            optimizations_used: opt_view(self.optimizations_used),
            runs: opt_view(self.runs),
            evm_version: opt_view(self.evm_version),
            via_ir: self.via_ir,
        }
    }
}

impl Encoder {
    fn new(cfg: ContractDeployArgs) -> (r: Encoder)
        requires
            schema_ok(cfg.param_types@),
        ensures
            r@ == args_model(cfg),
    {
        Encoder {
            compiled_bytecode: cfg.init_code_without_args,
            param_types: cfg.param_types,
            source: cfg.source,
            code_format: cfg.code_format,
            contract_name: cfg.contract_name,
            compiler_version: cfg.compiler_version,
            optimizations_used: cfg.optimizations_used,
            runs: cfg.runs,
            evm_version: cfg.evm_version,
            via_ir: cfg.via_ir,
        }
    }

    fn decode(&self, data: &Vec<u8>) -> (r: Option<DynSolValue>)
        ensures
            r == rule_decode(self@.prefix, self@.schema, data@),
    {
        if data.len() >= self.compiled_bytecode.len() {
            let tail = slice_subrange(data.as_slice(), self.compiled_bytecode.len(), data.len());
            proof {
                assert(tail@ =~= data@.skip(self.compiled_bytecode@.len() as int));
            }
            decode_params(self.param_types.as_str(), tail)
        } else {
            None
        }
    }
}

/// What a successful lookup packages for the verification service: the
/// matched rule's metadata and the decoded constructor arguments re-encoded
/// into their canonical bytes.
pub struct VerificationRequest {
    pub address: Address,
    pub source: String,
    pub code_format: CodeFormat,
    pub contract_name: String,
    pub compiler_version: String,
    pub optimization_used: Option<String>,
    pub runs: Option<String>,
    pub constructor_arguments: Vec<u8>,
    pub evm_version: Option<String>,
    pub via_ir: Option<bool>,
}

/// The decoder registry: per deployer address, a table from 4-byte selector
/// to decoding rule. Built once; lookups never change it.
pub struct Matcher {
    mapping: Vec<(Address, Vec<([u8; 4], Encoder)>)>,
}

/// The map that a stored selector table denotes.
spec fn rules_map(rules: Seq<([u8; 4], Encoder)>) -> Map<Seq<u8>, RuleModel>
    decreases rules.len(),
{
    if rules.len() == 0 {
        Map::empty()
    } else {
        rules_map(rules.drop_last()).insert(rules.last().0@, rules.last().1@)
    }
}

/// The map that the stored entry list denotes: a repeated address extends
/// that address's table, later rules winning per selector.
spec fn entries_map(entries: Seq<(Address, Vec<([u8; 4], Encoder)>)>) -> Map<
    Seq<u8>,
    Map<Seq<u8>, RuleModel>,
>
    decreases entries.len(),
{
    if entries.len() == 0 {
        Map::empty()
    } else {
        let m = entries_map(entries.drop_last());
        let prior = if m.contains_key(entries.last().0@) {
            m[entries.last().0@]
        } else {
            Map::empty()
        };
        m.insert(entries.last().0@, prior.union_prefer_right(rules_map(entries.last().1@)))
    }
}

/// The last entry under a key is the one the denoted map holds.
proof fn lemma_rules_map_last(rules: Seq<([u8; 4], Encoder)>, k: Seq<u8>, i: int)
    requires
        0 <= i < rules.len(),
        rules[i].0@ == k,
        forall|j: int| i < j < rules.len() ==> (#[trigger] rules[j]).0@ != k,
    ensures
        rules_map(rules).contains_key(k),
        rules_map(rules)[k] == rules[i].1@,
    decreases rules.len(),
{
    if i < rules.len() - 1 {
        assert(rules.drop_last()[i] == rules[i]);
        assert(forall|j: int|
            i < j < rules.drop_last().len() ==> (#[trigger] rules.drop_last()[j]).0@ != k);
        lemma_rules_map_last(rules.drop_last(), k, i);
    }
}

/// A key under which no entry stands is absent from the denoted map.
proof fn lemma_rules_map_absent(rules: Seq<([u8; 4], Encoder)>, k: Seq<u8>)
    requires
        forall|j: int| 0 <= j < rules.len() ==> (#[trigger] rules[j]).0@ != k,
    ensures
        !rules_map(rules).contains_key(k),
    decreases rules.len(),
{
    if rules.len() > 0 {
        assert(forall|j: int|
            0 <= j < rules.drop_last().len() ==> (#[trigger] rules.drop_last()[j]).0@ != k);
        lemma_rules_map_absent(rules.drop_last(), k);
    }
}

/// The rule the denoted map holds under a pair is the one from the last
/// entry for the address whose table carries the selector.
proof fn lemma_entries_map_find(
    entries: Seq<(Address, Vec<([u8; 4], Encoder)>)>,
    a: Seq<u8>,
    s: Seq<u8>,
    i: int,
)
    requires
        0 <= i < entries.len(),
        entries[i].0@ == a,
        rules_map(entries[i].1@).contains_key(s),
        forall|j: int|
            i < j < entries.len() ==> ((#[trigger] entries[j]).0@ == a ==> !rules_map(
                entries[j].1@,
            ).contains_key(s)),
    ensures
        entries_map(entries).contains_key(a),
        entries_map(entries)[a].contains_key(s),
        entries_map(entries)[a][s] == rules_map(entries[i].1@)[s],
    decreases entries.len(),
{
    if i == entries.len() - 1 {
        assert(entries.last() == entries[i]);
    } else {
        let rest = entries.drop_last();
        assert(forall|i2: int| 0 <= i2 < rest.len() ==> rest[i2] == entries[i2]);
        lemma_entries_map_find(rest, a, s, i);
    }
}

/// A pair no entry's table carries is absent from the denoted map.
proof fn lemma_entries_map_no_pair(
    entries: Seq<(Address, Vec<([u8; 4], Encoder)>)>,
    a: Seq<u8>,
    s: Seq<u8>,
)
    requires
        forall|j: int|
            0 <= j < entries.len() ==> ((#[trigger] entries[j]).0@ == a ==> !rules_map(
                entries[j].1@,
            ).contains_key(s)),
    ensures
        entries_map(entries).contains_key(a) ==> !entries_map(entries)[a].contains_key(s),
    decreases entries.len(),
{
    if entries.len() > 0 {
        let rest = entries.drop_last();
        assert(forall|i2: int| 0 <= i2 < rest.len() ==> rest[i2] == entries[i2]);
        lemma_entries_map_no_pair(rest, a, s);
    }
}

/// Byte-for-byte equality of two byte vectors.
fn bytes_eq(a: &Vec<u8>, b: &Vec<u8>) -> (r: bool)
    ensures
        r == (a@ == b@),
{
    if a.len() != b.len() {
        return false;
    }
    let mut i: usize = 0;
    while i < a.len()
        invariant
            0 <= i <= a@.len(),
            a@.len() == b@.len(),
            forall|j: int| 0 <= j < i ==> a@[j] == b@[j],
        decreases a@.len() - i,
    {
        if a[i] != b[i] {
            return false;
        }
        i += 1;
    }
    proof {
        assert(a@ =~= b@);
    }
    true
}

/// A copy of a byte vector.
fn clone_bytes(v: &Vec<u8>) -> (r: Vec<u8>)
    ensures
        r@ == v@,
{
    let mut r: Vec<u8> = Vec::new();
    let mut i: usize = 0;
    while i < v.len()
        invariant
            0 <= i <= v@.len(),
            r@ == v@.subrange(0, i as int),
        decreases v@.len() - i,
    {
        r.push(v[i]);
        proof {
            assert(r@ =~= v@.subrange(0, i + 1 as int));
        }
        i += 1;
    }
    proof {
        assert(v@.subrange(0, v@.len() as int) =~= v@);
    }
    r
}

/// A copy of an optional string.
fn clone_opt_string(o: &Option<String>) -> (r: Option<String>)
    ensures
        opt_view(r) == opt_view(*o),
{
    match o {
        Some(s) => Some(s.clone()),
        None => None,
    }
}

impl View for Matcher {
    type V = Map<Seq<u8>, Map<Seq<u8>, RuleModel>>;

    closed spec fn view(&self) -> Map<Seq<u8>, Map<Seq<u8>, RuleModel>> {
        entries_map(self.mapping@)
    }
}

impl Matcher {
    /// Every rule the registry holds has a schema that parses.
    pub open spec fn wf(self) -> bool {
        forall|a: Seq<u8>, s: Seq<u8>|
            self@.contains_key(a) && #[trigger] self@[a].contains_key(s) ==> schema_ok(
                self@[a][s].schema,
            )
    }

    /// Whether a rule is registered for this address and the payload's
    /// leading 4-byte selector.
    pub open spec fn has_rule(self, addr: Seq<u8>, payload: Seq<u8>) -> bool {
        payload.len() >= 4 && self@.contains_key(addr) && self@[addr].contains_key(
            payload.subrange(0, 4),
        )
    }

    /// The rule registered for this address and the payload's selector.
    pub open spec fn matched_rule(self, addr: Seq<u8>, payload: Seq<u8>) -> RuleModel
        recommends
            self.has_rule(addr, payload),
    {
        self@[addr][payload.subrange(0, 4)]
    }

    /// What a lookup returns: the matched rule's decoding of the payload, or
    /// nothing when no rule matches. An unregistered address, an unregistered
    /// selector, a payload too short for a selector or for the matched rule's
    /// prefix, and argument bytes that do not decode all collapse to `None`.
    ///
    /// The codec fixes the trailing-bytes policy: bytes beyond what the
    /// schema consumes do not make a decode fail. A zero-parameter schema
    /// accepts any tail, and extra bytes after a static tuple's words are
    /// ignored, so a match is decided by the pair and the leading bytes, not
    /// by the payload ending where the schema does.
    pub open spec fn decoded_args(self, addr: Seq<u8>, payload: Seq<u8>) -> Option<DynSolValue> {
        if self.has_rule(addr, payload) {
            rule_decode(
                self.matched_rule(addr, payload).prefix,
                self.matched_rule(addr, payload).schema,
                payload,
            )
        } else {
            None
        }
    }

    /// The rule stored under the address and the payload's leading selector,
    /// if any: the most recently inserted rule for the pair wins.
    fn find_rule(&self, address: &Address, data: &Vec<u8>) -> (r: Option<&Encoder>)
        requires
            data@.len() >= 4,
        ensures
            match r {
                Some(enc) => self@.contains_key(address@) && self@[address@].contains_key(
                    data@.subrange(0, 4),
                ) && enc@ == self@[address@][data@.subrange(0, 4)],
                None => !(self@.contains_key(address@) && self@[address@].contains_key(
                    data@.subrange(0, 4),
                )),
            },
    {
        let ghost sel = data@.subrange(0, 4);
        let mut i: usize = self.mapping.len();
        while i > 0
            invariant
                data@.len() >= 4,
                sel == data@.subrange(0, 4),
                0 <= i <= self.mapping@.len(),
                forall|j: int|
                    i <= j < self.mapping@.len() ==> ((#[trigger] self.mapping@[j]).0@ == address@
                        ==> !rules_map(self.mapping@[j].1@).contains_key(sel)),
            decreases i,
        {
            i = i - 1;
            let entry = &self.mapping[i];
            if bytes_eq(&entry.0.bytes, &address.bytes) {
                match Self::find_encoder(&entry.1, data) {
                    Some(enc) => {
                        proof {
                            lemma_entries_map_find(self.mapping@, address@, sel, i as int);
                        }
                        return Some(enc);
                    },
                    None => {},
                }
            }
        }
        proof {
            lemma_entries_map_no_pair(self.mapping@, address@, sel);
        }
        None
    }

    /// The rule stored under the payload's leading selector, if any: the most
    /// recently inserted entry wins.
    fn find_encoder<'a>(rules: &'a Vec<([u8; 4], Encoder)>, data: &Vec<u8>) -> (r: Option<
        &'a Encoder,
    >)
        requires
            data@.len() >= 4,
        ensures
            match r {
                Some(enc) => rules_map(rules@).contains_key(data@.subrange(0, 4)) && enc@
                    == rules_map(rules@)[data@.subrange(0, 4)],
                None => !rules_map(rules@).contains_key(data@.subrange(0, 4)),
            },
    {
        let ghost sel = data@.subrange(0, 4);
        let mut i: usize = rules.len();
        while i > 0
            invariant
                data@.len() >= 4,
                0 <= i <= rules@.len(),
                forall|j: int| i <= j < rules@.len() ==> (#[trigger] rules@[j]).0@ != sel,
                sel == data@.subrange(0, 4),
            decreases i,
        {
            i = i - 1;
            let entry = &rules[i];
            let matched = *array_index_get(&entry.0, 0) == data[0] && *array_index_get(&entry.0, 1)
                == data[1] && *array_index_get(&entry.0, 2) == data[2] && *array_index_get(
                &entry.0,
                3,
            ) == data[3];
            if matched {
                proof {
                    assert(entry.0@ =~= sel);
                    lemma_rules_map_last(rules@, sel, i as int);
                }
                return Some(&entry.1);
            } else {
                proof {
                    if entry.0@ == sel {
                        assert(entry.0@[0] == sel[0]);
                        assert(entry.0@[1] == sel[1]);
                        assert(entry.0@[2] == sel[2]);
                        assert(entry.0@[3] == sel[3]);
                    }
                }
            }
        }
        proof {
            lemma_rules_map_absent(rules@, sel);
        }
        None
    }

    /// Builds the registry from the configuration list. Every schema must be
    /// known to parse; [`Matcher::try_new`] checks that and is owed to
    /// callers that cannot know it.
    pub fn new(data: Vec<(Address, Vec<ContractDeployArgs>)>) -> (r: Matcher)
        requires
            forall|i: int, j: int|
                0 <= i < data@.len() && 0 <= j < data@[i].1@.len() ==> schema_ok(
                    (#[trigger] data@[i].1@[j]).param_types@,
                ),
        ensures
            r@ == registry_model(data@),
            r.wf(),
    {
        let ghost orig = data@;
        let mut data = data;
        let mut mapping: Vec<(Address, Vec<([u8; 4], Encoder)>)> = Vec::new();
        let ghost i: int = 0;
        while data.len() > 0
            invariant
                0 <= i <= orig.len(),
                i + data@.len() == orig.len(),
                data@ == orig.skip(i),
                entries_map(mapping@) == registry_model(orig.take(i)),
                forall|i2: int, j2: int|
                    0 <= i2 < orig.len() && 0 <= j2 < orig[i2].1@.len() ==> schema_ok(
                        (#[trigger] orig[i2].1@[j2]).param_types@,
                    ),
            decreases data@.len(),
        {
            let (address, cfgs) = data.remove(0);
            proof {
                assert(orig.skip(i)[0] == orig[i]);
                assert(orig.skip(i).remove(0) =~= orig.skip(i + 1));
            }
            let ghost icfgs = cfgs@;
            let mut cfgs = cfgs;
            let mut rules: Vec<([u8; 4], Encoder)> = Vec::new();
            let ghost j: int = 0;
            while cfgs.len() > 0
                invariant
                    0 <= j <= icfgs.len(),
                    j + cfgs@.len() == icfgs.len(),
                    cfgs@ == icfgs.skip(j),
                    rules_map(rules@) == inner_model(icfgs.take(j)),
                    forall|j2: int|
                        0 <= j2 < icfgs.len() ==> schema_ok(
                            (#[trigger] icfgs[j2]).param_types@,
                        ),
                decreases cfgs@.len(),
            {
                let cfg = cfgs.remove(0);
                proof {
                    assert(icfgs.skip(j)[0] == icfgs[j]);
                    assert(icfgs.skip(j).remove(0) =~= icfgs.skip(j + 1));
                }
                let sel = cfg.factory_selector;
                let ghost old_rules = rules@;
                let enc = Encoder::new(cfg);
                rules.push((sel, enc));
                proof {
                    assert(rules@.drop_last() =~= old_rules);
                    assert(icfgs.take(j + 1).drop_last() =~= icfgs.take(j));
                    assert(icfgs.take(j + 1).last() == icfgs[j]);
                    j = j + 1;
                }
            }
            proof {
                assert(icfgs.take(icfgs.len() as int) =~= icfgs);
            }
            let ghost old_mapping = mapping@;
            mapping.push((address, rules));
            proof {
                assert(mapping@.drop_last() =~= old_mapping);
                assert(orig.take(i + 1).drop_last() =~= orig.take(i));
                assert(orig.take(i + 1).last() == orig[i]);
                i = i + 1;
            }
        }
        proof {
            assert(orig.take(orig.len() as int) =~= orig);
        }
        let r = Matcher { mapping };
        proof {
            assert forall|a: Seq<u8>, s: Seq<u8>|
                r@.contains_key(a) && #[trigger] r@[a].contains_key(s) implies schema_ok(
                r@[a][s].schema,
            ) by {
                lemma_registry_model_pair(orig, a, s);
                let (i2, j2) = choose|i2: int, j2: int|
                    0 <= i2 < orig.len() && orig[i2].0@ == a && 0 <= j2 < orig[i2].1@.len() && (
                    #[trigger] orig[i2].1@[j2]).factory_selector@ == s && registry_model(orig)[a][s]
                        == args_model(orig[i2].1@[j2]);
                assert(schema_ok(orig[i2].1@[j2].param_types@));
            }
        }
        r
    }

    /// Builds the registry after checking every schema, and returns nothing
    /// if any schema does not parse: construction is all-or-nothing.
    pub fn try_new(data: Vec<(Address, Vec<ContractDeployArgs>)>) -> (r: Option<Matcher>)
        ensures
            r is Some <==> (forall|i: int, j: int|
                0 <= i < data@.len() && 0 <= j < data@[i].1@.len() ==> schema_ok(
                    (#[trigger] data@[i].1@[j]).param_types@,
                )),
            r matches Some(m) ==> m@ == registry_model(data@) && m.wf(),
    {
        let mut i: usize = 0;
        while i < data.len()
            invariant
                0 <= i <= data@.len(),
                forall|i2: int, j2: int|
                    0 <= i2 < i && 0 <= j2 < data@[i2].1@.len() ==> schema_ok(
                        (#[trigger] data@[i2].1@[j2]).param_types@,
                    ),
            decreases data@.len() - i,
        {
            let entry = &data[i];
            let mut j: usize = 0;
            while j < entry.1.len()
                invariant
                    0 <= i < data@.len(),
                    0 <= j <= entry.1@.len(),
                    entry == &data@[i as int],
                    forall|j2: int|
                        0 <= j2 < j ==> schema_ok((#[trigger] entry.1@[j2]).param_types@),
                decreases entry.1@.len() - j,
            {
                if !schema_parses(entry.1[j].param_types.as_str()) {
                    assert(!schema_ok(data@[i as int].1@[j as int].param_types@));
                    return None;
                }
                j += 1;
            }
            i += 1;
        }
        Some(Self::new(data))
    }

    /// Looks the address up, picks the rule under the payload's leading
    /// 4-byte selector, strips the rule's bytecode prefix and ABI-decodes the
    /// rest. Every way of not matching yields `None`.
    pub fn get_constructor_args(&self, address: &Address, data: &Vec<u8>) -> (r: Option<
        DynSolValue,
    >)
        ensures
            r == self.decoded_args(address@, data@),
    {
        if data.len() < 4 {
            return None;
        }
        match self.find_rule(address, data) {
            None => None,
            Some(enc) => enc.decode(data),
        }
    }

    /// The same lookup, packaging a successful decode with the matched rule's
    /// metadata into a verification request; the decoded arguments are
    /// re-encoded into their canonical bytes.
    pub fn get_verification_args(&self, address: &Address, data: &Vec<u8>) -> (r: Option<
        VerificationRequest,
    >)
        ensures
            r is Some <==> self.decoded_args(address@, data@) is Some,
            r matches Some(v) ==> ({
                let rule = self.matched_rule(address@, data@);
                &&& v.address@ == address@
                &&& v.source@ == rule.source
                &&& v.code_format == rule.code_format
                &&& v.contract_name@ == rule.contract_name
                &&& v.compiler_version@ == rule.compiler_version
                &&& opt_view(v.optimization_used) == rule.optimizations_used
                &&& opt_view(v.runs) == rule.runs
                &&& v.constructor_arguments@ == encoded_params_of(
                    self.decoded_args(address@, data@)->0,
                )
                &&& opt_view(v.evm_version) == rule.evm_version
                &&& v.via_ir == rule.via_ir
            }),
    {
        if data.len() < 4 {
            return None;
        }
        match self.find_rule(address, data) {
            None => None,
            Some(enc) => match enc.decode(data) {
                    None => None,
                    Some(decoded) => {
                        let constructor_arguments = encode_params(&decoded);
                        Some(
                            VerificationRequest {
                                address: Address { bytes: clone_bytes(&address.bytes) },
                                source: enc.source.clone(),
                                code_format: enc.code_format,
                                contract_name: enc.contract_name.clone(),
                                compiler_version: enc.compiler_version.clone(),
                                optimization_used: clone_opt_string(&enc.optimizations_used),
                                runs: clone_opt_string(&enc.runs),
                                constructor_arguments,
                                evm_version: clone_opt_string(&enc.evm_version),
                                via_ir: enc.via_ir,
                            },
                        )
                    },
                },
        }
    }
}

/// A payload shorter than 4 bytes, or shorter than the matched rule's
/// bytecode prefix, never decodes.
pub proof fn lemma_short_payload_no_match(m: Matcher, addr: Seq<u8>, payload: Seq<u8>)
    requires
        payload.len() < 4 || (m.has_rule(addr, payload) && payload.len() < m.matched_rule(
            addr,
            payload,
        ).prefix.len()),
    ensures
        m.decoded_args(addr, payload) is None,
{
}

/// Lookup is driven only by the rule under the payload's own leading
/// selector: two registries that agree on that rule decode the payload alike,
/// whatever they hold under other selectors or addresses.
pub proof fn lemma_selector_discrimination(m1: Matcher, m2: Matcher, addr: Seq<u8>, payload: Seq<u8>)
    requires
        m1.has_rule(addr, payload),
        m2.has_rule(addr, payload),
        m1.matched_rule(addr, payload) == m2.matched_rule(addr, payload),
    ensures
        m1.decoded_args(addr, payload) == m2.decoded_args(addr, payload),
{
}

/// Stripping is exact: when the payload is the matched rule's bytecode prefix
/// followed by a tail, the schema is applied to exactly the tail. With an
/// empty tail this is the empty-argument case: the outcome is whatever the
/// schema makes of zero bytes.
pub proof fn lemma_prefix_strip(m: Matcher, addr: Seq<u8>, payload: Seq<u8>, tail: Seq<u8>)
    requires
        m.has_rule(addr, payload),
        payload == m.matched_rule(addr, payload).prefix + tail,
    ensures
        m.decoded_args(addr, payload) == decode_of(m.matched_rule(addr, payload).schema, tail),
{
    let prefix = m.matched_rule(addr, payload).prefix;
    assert(payload.len() >= prefix.len());
    assert(payload.skip(prefix.len() as int) =~= tail);
}

/// An address that was never registered yields no match, whatever the
/// payload.
pub proof fn lemma_unregistered_no_match(m: Matcher, addr: Seq<u8>, payload: Seq<u8>)
    requires
        !m@.contains_key(addr),
    ensures
        m.decoded_args(addr, payload) is None,
{
}

} // verus!
