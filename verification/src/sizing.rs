//! The sizing rules: how a declared [`Length`] becomes a number of pixels,
//! what a fit-content box measures, and how the space of a container is
//! shared among its flow children by flex weight.

use vstd::prelude::*;
use crate::arith::{div_floor, div_toward_zero, sat32, saturate, trunc_div};
use crate::common::{Direction, Length};
use crate::view::{flow_count, flow_flex, flow_max, flow_sum, lemma_flow_bounds, NodeView};

verus! {

/// The share of `allowed` pixels that a child of weight `flex` receives among
/// siblings whose weights sum to `total`: the exact share rounded down.
/// Where the weights sum to nothing, every share is zero.
pub open spec fn flex_share(flex: int, allowed: int, total: int) -> int {
    if total > 0 {
        (flex * allowed) / total
    } else {
        0
    }
}

/// Computes the share of one flow child.
pub fn share_of(flex: u32, allowed: i32, total: u128) -> (r: i32)
    ensures
        r == sat32(flex_share(flex as int, allowed as int, total as int)),
        flex <= total ==> r == flex_share(flex as int, allowed as int, total as int),
{
    if total == 0 {
        return 0;
    }
    assert(-0x8000_0000_0000_0000 <= (flex as int) * (allowed as int) <= 0x8000_0000_0000_0000)
        by (nonlinear_arith)
        requires
            0 <= flex <= 0xffff_ffff,
            -0x8000_0000 <= allowed <= 0x7fff_ffff,
    ;
    let product: i128 = (flex as i128) * (allowed as i128);
    if total > 0x8000_0000_0000_0000 {
        // The weights outweigh any product: the share is a fraction of a
        // pixel, which rounds down to nothing, or to one pixel below it.
        if product >= 0 {
            proof {
                vstd::arithmetic::div_mod::lemma_fundamental_div_mod_converse(
                    product as int,
                    total as int,
                    0,
                    product as int,
                );
            }
            0
        } else {
            proof {
                vstd::arithmetic::div_mod::lemma_fundamental_div_mod_converse(
                    product as int,
                    total as int,
                    -1,
                    total as int + product as int,
                );
            }
            -1
        }
    } else {
        let q = div_floor(product, total as i128);
        proof {
            if flex <= total {
                lemma_share_within(flex as int, allowed as int, total as int);
            }
        }
        saturate(q)
    }
}

/// A share is never larger in magnitude than the space that is shared.
pub proof fn lemma_share_within(flex: int, allowed: int, total: int)
    requires
        0 <= flex <= total,
        total > 0,
    ensures
        allowed >= 0 ==> 0 <= flex_share(flex, allowed, total) <= allowed,
        allowed < 0 ==> allowed <= flex_share(flex, allowed, total) <= 0,
{
    let q = (flex * allowed) / total;
    let r = (flex * allowed) % total;
    assert(flex * allowed == q * total + r && 0 <= r < total) by (nonlinear_arith)
        requires
            q == (flex * allowed) / total,
            r == (flex * allowed) % total,
            total > 0,
    ;
    if allowed >= 0 {
        assert(0 <= q <= allowed) by (nonlinear_arith)
            requires
                flex * allowed == q * total + r,
                0 <= r < total,
                0 <= flex <= total,
                allowed >= 0,
        ;
    } else {
        assert(allowed <= q <= 0) by (nonlinear_arith)
            requires
                flex * allowed == q * total + r,
                0 <= r < total,
                0 <= flex <= total,
                allowed < 0,
        ;
    }
}

/// The sum of the shares of the flow children among the first `n` nodes.
pub open spec fn share_sum(s: Seq<NodeView>, allowed: int, total: int, n: int) -> int
    decreases n,
{
    if n <= 0 || n > s.len() {
        0
    } else {
        share_sum(s, allowed, total, n - 1) + if s[n - 1].in_flow() {
            flex_share(s[n - 1].flex as int, allowed, total)
        } else {
            0int
        }
    }
}

/// The shares of the first `n` nodes, times the sum of the weights, lie
/// within one pixel per flow child below their exact share of the space.
proof fn lemma_share_sum_bounds(s: Seq<NodeView>, allowed: int, total: int, n: int)
    requires
        0 <= n <= s.len(),
        total > 0,
    ensures
        total * share_sum(s, allowed, total, n) <= flow_flex(s, n) * allowed,
        flow_flex(s, n) * allowed - flow_count(s, n) * (total - 1) <= total * share_sum(
            s,
            allowed,
            total,
            n,
        ),
    decreases n,
{
    if n > 0 {
        lemma_share_sum_bounds(s, allowed, total, n - 1);
        lemma_flow_bounds(s, true, n - 1);
        if s[n - 1].in_flow() {
            let f = s[n - 1].flex as int;
            let q = (f * allowed) / total;
            let r = (f * allowed) % total;
            let before = share_sum(s, allowed, total, n - 1);
            let fb = flow_flex(s, n - 1);
            let cb = flow_count(s, n - 1);
            assert(f * allowed == q * total + r && 0 <= r < total) by (nonlinear_arith)
                requires
                    q == (f * allowed) / total,
                    r == (f * allowed) % total,
                    total > 0,
            ;
            assert(total * (before + q) <= (fb + f) * allowed) by (nonlinear_arith)
                requires
                    total * before <= fb * allowed,
                    f * allowed == q * total + r,
                    0 <= r,
            ;
            assert((fb + f) * allowed - (cb + 1) * (total - 1) <= total * (before + q))
                by (nonlinear_arith)
                requires
                    fb * allowed - cb * (total - 1) <= total * before,
                    f * allowed == q * total + r,
                    r < total,
            ;
        }
    }
}

/// Sizing conservation: the shares handed to the flow children of a container
/// never exceed the space that is shared, and fall short of it by less than
/// one pixel per flow child.
pub proof fn lemma_sizing_conservation(children: Seq<NodeView>, allowed: int)
    requires
        flow_flex(children, children.len() as int) > 0,
    ensures
        share_sum(children, allowed, flow_flex(children, children.len() as int), children.len() as int)
            <= allowed,
        allowed - share_sum(
            children,
            allowed,
            flow_flex(children, children.len() as int),
            children.len() as int,
        ) < flow_count(children, children.len() as int),
{
    let n = children.len() as int;
    let total = flow_flex(children, n);
    let sum = share_sum(children, allowed, total, n);
    let count = flow_count(children, n);
    lemma_share_sum_bounds(children, allowed, total, n);
    lemma_flow_bounds(children, true, n);
    lemma_weights_need_a_child(children, n);
    assert(sum <= allowed) by (nonlinear_arith)
        requires
            total * sum <= total * allowed,
            total > 0,
    ;
    assert(allowed - sum < count) by (nonlinear_arith)
        requires
            total * allowed - count * (total - 1) <= total * sum,
            total > 0,
            count > 0,
    ;
}

/// Weights that sum to something belong to at least one flow child.
pub proof fn lemma_weights_need_a_child(s: Seq<NodeView>, n: int)
    requires
        0 <= n <= s.len(),
    ensures
        flow_flex(s, n) > 0 ==> flow_count(s, n) > 0,
    decreases n,
{
    if n > 0 {
        lemma_weights_need_a_child(s, n - 1);
        lemma_flow_bounds(s, true, n - 1);
    }
}

/// What a fit-content box measures along one axis: along the flow, the sum of
/// the flow children's extents and of the gaps between them; across it, the
/// largest of their extents; nothing where it has no flow child.
pub open spec fn fit_extent(children: Seq<NodeView>, horizontal: bool, main: bool, gap: i32) -> int {
    let n = children.len() as int;
    if flow_count(children, n) == 0 {
        0
    } else if main {
        flow_sum(children, horizontal, n) + gap * (flow_count(children, n) - 1)
    } else {
        flow_max(children, horizontal, n).unwrap()
    }
}

/// The pixels that a declared length resolves to, given the extent the
/// parent offers and what the node's content measures.
pub open spec fn resolve_axis(length: Length, offered: i32, fit: int) -> i32 {
    match length {
        Length::FILL => offered,
        Length::FIT => sat32(fit),
        Length::FIXED(n) => n,
        Length::PERCENT(p) => sat32(trunc_div(offered * p, 100)),
    }
}

/// The resolved size of a box.
pub open spec fn resolve_size(
    dim: (Length, Length),
    offered: (i32, i32),
    children: Seq<NodeView>,
    direction: Direction,
    gap: i32,
) -> (i32, i32) {
    (
        resolve_axis(dim.0, offered.0, fit_extent(children, true, direction == Direction::Row, gap)),
        resolve_axis(
            dim.1,
            offered.1,
            fit_extent(children, false, direction == Direction::Column, gap),
        ),
    )
}

/// Resolves one declared length.
pub fn resolve_length(length: Length, offered: i32, fit: i128) -> (r: i32)
    ensures
        r == resolve_axis(length, offered, fit as int),
{
    match length {
        Length::FILL => offered,
        Length::FIT => saturate(fit),
        Length::FIXED(n) => n,
        Length::PERCENT(p) => {
            assert(-0x4000_0000_0000_0000 <= (offered as int) * (p as int) <= 0x4000_0000_0000_0000)
                by (nonlinear_arith)
                requires
                    -0x8000_0000 <= offered <= 0x7fff_ffff,
                    -0x8000_0000 <= p <= 0x7fff_ffff,
            ;
            let product: i128 = (offered as i128) * (p as i128);
            saturate(div_toward_zero(product, 100))
        },
    }
}

} // verus!
