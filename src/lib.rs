//! Grammar-model extraction and traversal generation for syntax-tree node types.
//!
//! Raw declarations (structs and enums with raw type expressions and feature
//! gates) are resolved into a closed grammar model, from which a schema
//! document and four traversal artifacts are generated.
use vstd::prelude::*;

pub mod error;
pub mod raw;
pub mod model;
pub mod resolve;
pub mod filter;
pub mod builder;
pub mod cycle;
pub mod emit;
pub mod schema;
pub mod laws;

use crate::builder::{build_model, model_of, precheck};
use crate::cycle::has_unboxed_cycle;
use crate::emit::{artifact_text, emit, Flavor};
use crate::error::{GenError, Malformed};
use crate::model::Grammar;
use crate::raw::{BuildConfig, RawDecl};
use crate::laws::{
    lemma_artifact_stable, lemma_cycle_determined, lemma_exportable_determined, lemma_model_closed,
    lemma_schema_stable,
};
use crate::schema::{exportable, export_schema, schema_text};

verus! {

/// Everything one generation run produces.
pub struct Outputs {
    pub schema: String,
    pub fold: String,
    pub visit: String,
    pub visit_mut: String,
    pub debug: String,
}

/// The outputs are those of model `g` under version `version`.
pub open spec fn outputs_of(g: Grammar, version: Seq<char>, o: Outputs) -> bool {
    &&& o.schema@ == schema_text(g, version)
    &&& o.fold@ == artifact_text(Flavor::Fold, g)
    &&& o.visit@ == artifact_text(Flavor::Visit, g)
    &&& o.visit_mut@ == artifact_text(Flavor::VisitMut, g)
    &&& o.debug@ == artifact_text(Flavor::Debug, g)
}

/// One generation run: builds the model, then writes the schema and the four
/// traversal artifacts from it. Either every output is produced or the first
/// error is returned. The outputs are those of every model of the input: they
/// depend on the declarations and the configuration alone.
pub fn do_main(ds: &Vec<RawDecl>, cfg: &BuildConfig) -> (r: Result<Outputs, GenError>)
    ensures
        match r {
            Ok(o) => {
                &&& precheck(ds@, *cfg) is None
                &&& exists|g: Grammar| model_of(ds@, *cfg, g)
                &&& forall|g: Grammar|
                    model_of(ds@, *cfg, g) ==> {
                        &&& g.closed()
                        &&& !has_unboxed_cycle(g)
                        &&& exportable(g, cfg.version@)
                        &&& outputs_of(g, cfg.version@, o)
                    }
            },
            Err(e) => {
                ||| precheck(ds@, *cfg) == Some(e)
                ||| (precheck(ds@, *cfg) is None && e == GenError::MalformedGrammar(
                    Malformed::UnboxedCycle,
                ) && (exists|g: Grammar| model_of(ds@, *cfg, g)) && forall|g: Grammar|
                    model_of(ds@, *cfg, g) ==> has_unboxed_cycle(g))
                ||| (precheck(ds@, *cfg) is None && e == GenError::UnsupportedSchemaEntity
                    && (exists|g: Grammar| model_of(ds@, *cfg, g)) && forall|g: Grammar|
                    model_of(ds@, *cfg, g) ==> !has_unboxed_cycle(g) && !exportable(
                        g,
                        cfg.version@,
                    ))
            },
        },
{
    let g = build_model(ds, cfg)?;
    let schema = match export_schema(&g, &cfg.version) {
        Ok(s) => s,
        Err(e) => {
            assert forall|h: Grammar| model_of(ds@, *cfg, h) implies !has_unboxed_cycle(h)
                && !exportable(h, cfg.version@) by {
                lemma_cycle_determined(ds@, *cfg, g, h);
                lemma_exportable_determined(ds@, *cfg, g, h, cfg.version@);
            }
            return Err(e);
        },
    };
    let fold = emit(&g, Flavor::Fold)?;
    let visit = emit(&g, Flavor::Visit)?;
    let visit_mut = emit(&g, Flavor::VisitMut)?;
    let debug = emit(&g, Flavor::Debug)?;
    let o = Outputs { schema, fold, visit, visit_mut, debug };
    assert forall|h: Grammar| model_of(ds@, *cfg, h) implies {
        &&& h.closed()
        &&& !has_unboxed_cycle(h)
        &&& exportable(h, cfg.version@)
        &&& outputs_of(h, cfg.version@, o)
    } by {
        lemma_model_closed(ds@, *cfg, h);
        lemma_cycle_determined(ds@, *cfg, g, h);
        lemma_exportable_determined(ds@, *cfg, g, h, cfg.version@);
        lemma_schema_stable(ds@, *cfg, g, h, cfg.version@);
        lemma_artifact_stable(ds@, *cfg, g, h, Flavor::Fold);
        lemma_artifact_stable(ds@, *cfg, g, h, Flavor::Visit);
        lemma_artifact_stable(ds@, *cfg, g, h, Flavor::VisitMut);
        lemma_artifact_stable(ds@, *cfg, g, h, Flavor::Debug);
    }
    Ok(o)
}

} // verus!
