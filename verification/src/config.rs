//! Configuration data and the configuration-constructor source.
//!
//! A configuration is an opaque label. The installed constructor is
//! modelled as a finite table from invocation inputs to output
//! configurations: the scripting-language evaluation behind the real
//! constructor is outside this library, but within one version its
//! result is a fixed function of the inputs, which the table records.

use vstd::prelude::*;

use crate::bytes::bytes_clone;
use crate::bytes::bytes_eq;
use crate::bytes::comps_clone;
use crate::paths::comps_eq;

verus! {

/// Mathematical image of a configuration.
#[verifier::ext_equal]
pub struct ConfigurationDataV {
    pub label: Seq<u8>,
}

/// A set of build-time switches, identified by its label.
#[derive(Debug)]
pub struct ConfigurationData {
    pub label: Vec<u8>,
}

impl View for ConfigurationData {
    type V = ConfigurationDataV;

    open spec fn view(&self) -> ConfigurationDataV {
        ConfigurationDataV { label: self.label@ }
    }
}

impl Clone for ConfigurationData {
    fn clone(&self) -> (r: Self)
        ensures
            r@ == self@,
    {
        ConfigurationData { label: bytes_clone(&self.label) }
    }
}

impl ConfigurationData {
    /// Whether two configurations carry the same label.
    pub fn cfg_eq(&self, other: &ConfigurationData) -> (r: bool)
        ensures
            r == (self@ == other@),
    {
        let r = bytes_eq(&self.label, &other.label);
        proof {
            if r {
                assert(self@ =~= other@);
            }
        }
        r
    }
}

/// Mathematical image of the inputs of one constructor invocation.
#[verifier::ext_equal]
pub struct CfgInvocationDataV {
    pub package_cfg_modifiers: Option<Seq<u8>>,
    pub target_cfg_modifiers: Option<Seq<u8>>,
    pub cfg: ConfigurationDataV,
    pub cli_modifiers: Seq<Seq<u8>>,
    pub rule_type: Seq<u8>,
}

/// The inputs of one constructor invocation: the modifier sources, the
/// base configuration, and the rule type.
#[derive(Debug)]
pub struct CfgInvocationData {
    pub package_cfg_modifiers: Option<Vec<u8>>,
    pub target_cfg_modifiers: Option<Vec<u8>>,
    pub cfg: ConfigurationData,
    pub cli_modifiers: Vec<Vec<u8>>,
    pub rule_type: Vec<u8>,
}

impl View for CfgInvocationData {
    type V = CfgInvocationDataV;

    open spec fn view(&self) -> CfgInvocationDataV {
        CfgInvocationDataV {
            package_cfg_modifiers: match &self.package_cfg_modifiers {
                Option::Some(m) => Option::Some(m@),
                Option::None => Option::None,
            },
            target_cfg_modifiers: match &self.target_cfg_modifiers {
                Option::Some(m) => Option::Some(m@),
                Option::None => Option::None,
            },
            cfg: self.cfg@,
            cli_modifiers: self.cli_modifiers.deep_view(),
            rule_type: self.rule_type@,
        }
    }
}

impl Clone for CfgInvocationData {
    fn clone(&self) -> (r: Self)
        ensures
            r@ == self@,
    {
        let r = CfgInvocationData {
            package_cfg_modifiers: match &self.package_cfg_modifiers {
                Option::Some(m) => Option::Some(bytes_clone(m)),
                Option::None => Option::None,
            },
            target_cfg_modifiers: match &self.target_cfg_modifiers {
                Option::Some(m) => Option::Some(bytes_clone(m)),
                Option::None => Option::None,
            },
            cfg: self.cfg.clone(),
            cli_modifiers: comps_clone(&self.cli_modifiers),
            rule_type: bytes_clone(&self.rule_type),
        };
        proof {
            assert(r@ =~= self@);
        }
        r
    }
}

/// Whether two optional byte strings agree.
fn opt_bytes_eq(a: &Option<Vec<u8>>, b: &Option<Vec<u8>>) -> (r: bool)
    ensures
        r == (match (a, b) {
            (Option::Some(x), Option::Some(y)) => x@ == y@,
            (Option::None, Option::None) => true,
            _ => false,
        }),
{
    match (a, b) {
        (Option::Some(x), Option::Some(y)) => bytes_eq(x, y),
        (Option::None, Option::None) => true,
        _ => false,
    }
}

impl CfgInvocationData {
    /// Whether two invocation inputs agree, structurally.
    pub fn data_eq(&self, other: &CfgInvocationData) -> (r: bool)
        ensures
            r == (self@ == other@),
    {
        let r = opt_bytes_eq(&self.package_cfg_modifiers, &other.package_cfg_modifiers)
            && opt_bytes_eq(&self.target_cfg_modifiers, &other.target_cfg_modifiers)
            && self.cfg.cfg_eq(&other.cfg) && comps_eq(&self.cli_modifiers, &other.cli_modifiers)
            && bytes_eq(&self.rule_type, &other.rule_type);
        proof {
            if r {
                assert(self@ =~= other@);
            }
        }
        r
    }

    /// Whether all three modifier sources are empty.
    pub fn modifiers_empty(&self) -> (r: bool)
        ensures
            r == (self@.package_cfg_modifiers is None && self@.target_cfg_modifiers is None
                && self@.cli_modifiers.len() == 0),
    {
        self.package_cfg_modifiers.is_none() && self.target_cfg_modifiers.is_none()
            && self.cli_modifiers.len() == 0
    }
}

/// Mathematical image of one constructor table row.
#[verifier::ext_equal]
pub struct CfgRuleV {
    pub key: CfgInvocationDataV,
    pub out: ConfigurationDataV,
}

/// One row of the constructor table: inputs and the configuration the
/// constructor returns for them.
#[derive(Debug)]
pub struct CfgRule {
    pub key: CfgInvocationData,
    pub out: ConfigurationData,
}

impl View for CfgRule {
    type V = CfgRuleV;

    open spec fn view(&self) -> CfgRuleV {
        CfgRuleV { key: self.key@, out: self.out@ }
    }
}

impl DeepView for CfgRule {
    type V = CfgRuleV;

    open spec fn deep_view(&self) -> CfgRuleV {
        self@
    }
}

impl Clone for CfgRule {
    fn clone(&self) -> (r: Self)
        ensures
            r@ == self@,
    {
        let r = CfgRule { key: self.key.clone(), out: self.out.clone() };
        proof {
            assert(r@ =~= self@);
        }
        r
    }
}

/// What the constructor returns for `key`: the first matching row.
pub open spec fn spec_cfg_lookup(rules: Seq<CfgRuleV>, key: CfgInvocationDataV) -> Option<
    ConfigurationDataV,
>
    decreases rules.len(),
{
    if rules.len() == 0 {
        Option::None
    } else if rules[0].key == key {
        Option::Some(rules[0].out)
    } else {
        spec_cfg_lookup(rules.drop_first(), key)
    }
}

/// Mathematical image of the constructor source.
#[verifier::ext_equal]
pub struct CfgSourceV {
    pub constructor: Option<Seq<CfgRuleV>>,
}

/// Whether a constructor is installed, and if so its behaviour.
#[derive(Debug)]
pub struct CfgSource {
    pub constructor: Option<Vec<CfgRule>>,
}

impl View for CfgSource {
    type V = CfgSourceV;

    open spec fn view(&self) -> CfgSourceV {
        CfgSourceV {
            constructor: match &self.constructor {
                Option::Some(rules) => Option::Some(rules.deep_view()),
                Option::None => Option::None,
            },
        }
    }
}

/// The deep view of a vector of constructor rows, elementwise.
pub proof fn lemma_rules_deep_view(v: Vec<CfgRule>)
    ensures
        v.deep_view().len() == v@.len(),
        forall|i: int| 0 <= i < v@.len() ==> v.deep_view()[i] == v@[i]@,
{
}

impl CfgSource {
    /// Looks up what the installed constructor returns for `key`;
    /// nothing if no constructor is installed or no row matches.
    pub fn lookup(&self, key: &CfgInvocationData) -> (r: Option<ConfigurationData>)
        ensures
            self@.constructor is None ==> r is None,
            self@.constructor matches Option::Some(rules) ==> (match r {
                Option::Some(out) => spec_cfg_lookup(rules, key@) == Option::Some(out@),
                Option::None => spec_cfg_lookup(rules, key@) is None,
            }),
    {
        let rules = match &self.constructor {
            Option::Some(rules) => rules,
            Option::None => {
                return Option::None;
            },
        };
        let ghost rv = rules.deep_view();
        proof {
            assert(self@.constructor == Option::Some(rv));
        }
        let n: usize = rules.len();
        let mut i: usize = 0;
        proof {
            lemma_rules_deep_view(*rules);
            assert(rv.skip(0) =~= rv);
        }
        while i < n
            invariant
                n == rules@.len(),
                rv == rules.deep_view(),
                self@.constructor == Option::Some(rv),
                rv.len() == n,
                forall|j: int| 0 <= j < n ==> rv[j] == rules@[j]@,
                0 <= i <= n,
                spec_cfg_lookup(rv, key@) == spec_cfg_lookup(rv.skip(i as int), key@),
            decreases n - i,
        {
            proof {
                assert(rv.skip(i as int)[0] == rv[i as int]);
                assert(rv.skip(i as int).drop_first() =~= rv.skip(i + 1));
            }
            if rules[i].key.data_eq(key) {
                return Option::Some(rules[i].out.clone());
            }
            i = i + 1;
        }
        proof {
            assert(rv.skip(n as int).len() == 0);
        }
        Option::None
    }
}

} // verus!
