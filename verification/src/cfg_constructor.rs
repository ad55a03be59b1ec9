//! The configuration-constructor calculation.
//!
//! A two-level memoized transform from the base configuration and the
//! modifier sources to the effective configuration. The constructor
//! itself is resolved through its own graph key — whose equality
//! predicate never holds, so any invalidation re-resolves it — and
//! each distinct invocation is memoized under an invocation key. When
//! no constructor is installed, or when all three modifier sources
//! are empty, the base configuration is returned unchanged and no
//! invocation key is ever computed.

use vstd::prelude::*;

use crate::config::CfgInvocationData;
use crate::config::ConfigurationData;
use crate::icg::spec_eval;
use crate::icg::spec_find_node;
use crate::icg::spec_is_leaf;
use crate::icg::wf;
use crate::icg::ComputeFailure;
use crate::icg::Key;
use crate::icg::KeyV;
use crate::icg::Value;
use crate::icg::ValueV;
use crate::icg::VersionedGraph;

verus! {

/// The package-file state that reaches the calculation: whether the
/// root package chain installed constructor inputs, and the modifier
/// value it contributes.
#[derive(Debug)]
pub struct SuperPackage {
    pub package_cfg_modifiers: Option<Vec<u8>>,
}

/// The target being configured: the modifier value its metadata
/// contributes, and its rule type.
#[derive(Debug)]
pub struct TargetNode {
    pub target_cfg_modifiers: Option<Vec<u8>>,
    pub rule_type: Vec<u8>,
}

/// A resolved constructor: a witness that one is installed in the
/// current version.
#[derive(Clone, Copy, Debug, PartialEq, Eq, Structural)]
pub struct CfgConstructor {
    pub installed: bool,
}

/// The calculation instance the engine exposes.
pub struct CfgConstructorCalculationInstance;

impl CfgConstructorCalculationInstance {
    /// Resolves the installed constructor through its graph key. The
    /// key's equality predicate never holds, so the resolution is
    /// re-done on any invalidation.
    pub fn get_cfg_constructor(&self, g: &mut VersionedGraph) -> (r: Option<CfgConstructor>)
        requires
            wf(old(g)@),
        ensures
            wf(final(g)@),
            final(g)@.version == old(g)@.version,
            final(g)@.env == old(g)@.env,
            final(g)@.staged == old(g)@.staged,
            r is Some <==> final(g)@.env.cfg.constructor is Some,
            forall|k2: KeyV| !spec_is_leaf(k2) ==> spec_find_node(final(g)@.nodes, k2)
                == spec_find_node(old(g)@.nodes, k2),
    {
        let v = g.compute(&Key::GetCfgConstructor);
        let installed = match v {
            Value::CfgConstructor(b) => b,
            _ => vstd::pervasive::unreached(),
        };
        if installed {
            Option::Some(CfgConstructor { installed: true })
        } else {
            Option::None
        }
    }

    /// Evaluates the constructor for a target: with no constructor
    /// installed, or with all three modifier sources empty, the base
    /// configuration is returned unchanged and no invocation key is
    /// computed; otherwise the invocation is resolved through the
    /// graph and its result — or its failure — is returned.
    pub fn eval_cfg_constructor(
        &self,
        g: &mut VersionedGraph,
        target: &TargetNode,
        super_package: &SuperPackage,
        cfg: ConfigurationData,
        cli_modifiers: &Vec<Vec<u8>>,
        rule_type: &Vec<u8>,
    ) -> (r: Result<ConfigurationData, ComputeFailure>)
        requires
            wf(old(g)@),
        ensures
            wf(final(g)@),
            final(g)@.version == old(g)@.version,
            final(g)@.env == old(g)@.env,
            final(g)@.staged == old(g)@.staged,
            // With no constructor, or no modifiers at all, the input
            // configuration comes back unchanged and the graph gains
            // no invocation node.
            (final(g)@.env.cfg.constructor is None || (super_package.package_cfg_modifiers is None
                && target.target_cfg_modifiers is None && cli_modifiers@.len() == 0)) ==> {
                &&& r == Result::<ConfigurationData, ComputeFailure>::Ok(cfg)
                &&& forall|k2: KeyV|
                    k2 matches KeyV::CfgInvocation { data } ==> #[trigger] spec_find_node(
                        final(g)@.nodes,
                        k2,
                    ) == spec_find_node(old(g)@.nodes, k2)
            },
            // Otherwise the invocation key is computed, and the
            // result is exactly its value under the pinned
            // environment.
            (final(g)@.env.cfg.constructor is Some && !(super_package.package_cfg_modifiers
                is None && target.target_cfg_modifiers is None && cli_modifiers@.len() == 0))
                ==> {
                let data = spec_invocation_data(
                    super_package,
                    target,
                    cfg@,
                    cli_modifiers@,
                    rule_type@,
                );
                match r {
                    Result::Ok(out) => spec_eval(
                        final(g)@.env,
                        KeyV::CfgInvocation { data },
                    ) == (ValueV::Configuration { cfg: out@ }),
                    Result::Err(e) => spec_eval(
                        final(g)@.env,
                        KeyV::CfgInvocation { data },
                    ) == (ValueV::Failure { failure: e@ }),
                }
            },
    {
        let ctor = self.get_cfg_constructor(g);
        if ctor.is_none() {
            // To ease rollout, the original configuration stands when
            // no constructor is installed.
            proof {
                assert forall|k2: KeyV| k2 matches KeyV::CfgInvocation { data } implies
                    #[trigger] spec_find_node(g@.nodes, k2) == spec_find_node(
                    old(g)@.nodes,
                    k2,
                ) by {
                    assert(!spec_is_leaf(k2));
                }
            }
            return Result::Ok(cfg);
        }
        let package_none = super_package.package_cfg_modifiers.is_none();
        let target_none = target.target_cfg_modifiers.is_none();
        if package_none && target_none && cli_modifiers.len() == 0 {
            // No modifier source contributes: the input configuration
            // stands, without computing the invocation key.
            proof {
                assert forall|k2: KeyV| k2 matches KeyV::CfgInvocation { data } implies
                    #[trigger] spec_find_node(g@.nodes, k2) == spec_find_node(
                    old(g)@.nodes,
                    k2,
                ) by {
                    assert(!spec_is_leaf(k2));
                }
            }
            return Result::Ok(cfg);
        }
        let data = CfgInvocationData {
            package_cfg_modifiers: match &super_package.package_cfg_modifiers {
                Option::Some(m) => Option::Some(crate::bytes::bytes_clone(m)),
                Option::None => Option::None,
            },
            target_cfg_modifiers: match &target.target_cfg_modifiers {
                Option::Some(m) => Option::Some(crate::bytes::bytes_clone(m)),
                Option::None => Option::None,
            },
            cfg,
            cli_modifiers: crate::bytes::comps_clone(cli_modifiers),
            rule_type: crate::bytes::bytes_clone(rule_type),
        };
        proof {
            crate::bytes::lemma_comps_deep_view(data.cli_modifiers);
            crate::bytes::lemma_comps_deep_view(*cli_modifiers);
            assert(data@.cli_modifiers =~~= Seq::new(
                cli_modifiers@.len(),
                |i: int| cli_modifiers@[i]@,
            ));
            assert(data@ =~~= spec_invocation_data(
                super_package,
                target,
                data.cfg@,
                cli_modifiers@,
                rule_type@,
            ));
        }
        let v = g.compute(&Key::CfgInvocation(data));
        match v {
            Value::Configuration(out) => Result::Ok(out),
            Value::Failure(e) => Result::Err(e),
            _ => vstd::pervasive::unreached(),
        }
    }
}

/// The invocation inputs built from the modifier sources.
pub open spec fn spec_invocation_data(
    super_package: &SuperPackage,
    target: &TargetNode,
    cfg: crate::config::ConfigurationDataV,
    cli_modifiers: Seq<Vec<u8>>,
    rule_type: Seq<u8>,
) -> crate::config::CfgInvocationDataV {
    crate::config::CfgInvocationDataV {
        package_cfg_modifiers: match super_package.package_cfg_modifiers {
            Option::Some(m) => Option::Some(m@),
            Option::None => Option::None,
        },
        target_cfg_modifiers: match target.target_cfg_modifiers {
            Option::Some(m) => Option::Some(m@),
            Option::None => Option::None,
        },
        cfg,
        cli_modifiers: Seq::new(cli_modifiers.len(), |i: int| cli_modifiers[i]@),
        rule_type,
    }
}

} // verus!
