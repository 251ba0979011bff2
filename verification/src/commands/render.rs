//! `bckt render`: which parts of the site a run builds.

use vstd::prelude::*;

use crate::cli::RenderArgs;
use crate::render::plan::{BuildMode, RenderPlan};

verus! {

/// The plan for a render run: `--force` wins over `--changed`, and naming
/// neither `--posts` nor `--static` builds both.
pub open spec fn determine_plan_spec(args: RenderArgs) -> RenderPlan {
    let mode = if args.force {
        BuildMode::Full
    } else if args.changed {
        BuildMode::Changed
    } else {
        BuildMode::Full
    };
    if !args.posts && !args.static_assets {
        RenderPlan { posts: true, static_assets: true, mode, verbose: args.verbose }
    } else {
        RenderPlan { posts: args.posts, static_assets: args.static_assets, mode, verbose: args.verbose }
    }
}

/// Turns the `render` flags into a render plan.
pub fn determine_plan(args: RenderArgs) -> (plan: RenderPlan)
    ensures
        plan == determine_plan_spec(args),
{
    let posts = args.posts;
    let static_assets = args.static_assets;
    let mode = if args.force {
        BuildMode::Full
    } else if args.changed {
        BuildMode::Changed
    } else {
        BuildMode::Full
    };

    match (posts, static_assets) {
        (false, false) => RenderPlan { posts: true, static_assets: true, mode, verbose: args.verbose },
        _ => RenderPlan { posts, static_assets, mode, verbose: args.verbose },
    }
}

} // verus!
