use vstd::prelude::*;
use vstd::seq_lib::*;

use crate::format::{lemma_parse_render_hosts, loaded_hosts, render_hosts};
use crate::host::{Host, HostV, hosts_view};
use crate::parse::hosts_from_json;
use crate::render::hosts_to_json;

verus! {

/// The file content handed to an operation: `None` when no file exists.
pub open spec fn content_view(c: Option<&str>) -> Option<Seq<char>> {
    match c {
        None => None,
        Some(s) => Some(s@),
    }
}

/// Read the registry out of optional file content. A missing file and
/// malformed content both give the empty registry; well-formed content gives
/// exactly the records it holds, in order. Never an error.
pub fn load_hosts(content: Option<&str>) -> (r: Vec<Host>)
    ensures
        hosts_view(r@) == loaded_hosts(content_view(content)),
{
    match content {
        None => {
            let r: Vec<Host> = Vec::new();
            assert(hosts_view(r@) =~= loaded_hosts(content_view(content)));
            r
        },
        Some(s) => {
            match hosts_from_json(s) {
                Some(hs) => hs,
                None => {
                    let r: Vec<Host> = Vec::new();
                    assert(hosts_view(r@) =~= loaded_hosts(content_view(content)));
                    r
                },
            }
        },
    }
}

/// One full add cycle: load the registry held by `content`, append
/// `new_host`, and serialize the result. Every record already present is
/// kept, in order, with the new record last.
pub fn add_host(content: Option<&str>, new_host: Host) -> (r: String)
    ensures
        r@ == render_hosts(loaded_hosts(content_view(content)).push(new_host@)),
{
    let ghost target = loaded_hosts(content_view(content)).push(new_host@);
    let mut hosts = load_hosts(content);
    hosts.push(new_host);
    proof {
        assert(hosts_view(hosts@) =~= target);
    }
    hosts_to_json(&hosts)
}

/// One full remove cycle: load the registry held by `content`, drop every
/// record whose id is `id` (an id no record carries drops nothing), and
/// serialize the result.
pub fn delete_host(content: Option<&str>, id: u64) -> (r: String)
    ensures
        r@ == render_hosts(loaded_hosts(content_view(content)).filter(|h: HostV| h.id != id)),
{
    let hosts = load_hosts(content);
    let ghost lv = loaded_hosts(content_view(content));
    let mut kept: Vec<Host> = Vec::new();
    let mut i: usize = 0;
    proof {
        reveal_with_fuel(Seq::<_>::filter, 2);
        assert(lv.subrange(0, 0) =~= Seq::<HostV>::empty());
        assert(lv.subrange(0, 0).filter(|h: HostV| h.id != id) =~= hosts_view(kept@));
    }
    while i < hosts.len()
        invariant
            hosts_view(hosts@) == lv,
            hosts@.len() == lv.len(),
            i <= hosts@.len(),
            hosts_view(kept@) == lv.subrange(0, i as int).filter(|h: HostV| h.id != id),
        decreases hosts@.len() - i,
    {
        let ghost pre = lv.subrange(0, i as int);
        let ghost cur = lv[i as int];
        proof {
            reveal_with_fuel(Seq::<_>::filter, 2);
            assert(cur == hosts@[i as int]@);
            assert(lv.subrange(0, (i + 1) as int) =~= pre.push(cur));
            assert(pre.push(cur).drop_last() =~= pre);
            assert(pre.push(cur).last() == cur);
        }
        let ghost kept0 = hosts_view(kept@);
        if hosts[i].id != id {
            kept.push(hosts[i].clone());
            proof {
                reveal_with_fuel(Seq::<_>::filter, 2);
                assert(hosts_view(kept@) =~= kept0.push(cur));
                assert(pre.push(cur).filter(|h: HostV| h.id != id) == kept0.push(cur));
                assert(hosts_view(kept@) =~= lv.subrange(0, (i + 1) as int).filter(
                    |h: HostV| h.id != id,
                ));
            }
        } else {
            proof {
                reveal_with_fuel(Seq::<_>::filter, 2);
                assert(pre.push(cur).filter(|h: HostV| h.id != id) == kept0);
                assert(hosts_view(kept@) =~= lv.subrange(0, (i + 1) as int).filter(
                    |h: HostV| h.id != id,
                ));
            }
        }
        i += 1;
    }
    proof {
        assert(lv.subrange(0, lv.len() as int) =~= lv);
    }
    hosts_to_json(&kept)
}

// ---------------------------------------------------------------------------
// Laws of the registry
// ---------------------------------------------------------------------------

/// Saving any registry and loading the saved text back yields the same
/// records, field for field, in the same order.
pub proof fn lemma_save_load_round_trip(hs: Seq<HostV>)
    ensures
        loaded_hosts(Some(render_hosts(hs))) == hs,
{
    lemma_parse_render_hosts(hs);
}

/// An add cycle run over any prior content yields content that loads to the
/// prior registry with the new record appended.
pub proof fn lemma_add_then_load(content: Option<Seq<char>>, h: HostV)
    ensures
        loaded_hosts(Some(render_hosts(loaded_hosts(content).push(h)))) == loaded_hosts(
            content,
        ).push(h),
{
    lemma_parse_render_hosts(loaded_hosts(content).push(h));
}

proof fn lemma_filter_all(s: Seq<HostV>, pred: spec_fn(HostV) -> bool)
    requires
        forall|k: int| 0 <= k < s.len() ==> pred(#[trigger] s[k]),
    ensures
        s.filter(pred) == s,
    decreases s.len(),
{
    if s.len() == 0 {
        reveal_with_fuel(Seq::<_>::filter, 2);
        assert(s.filter(pred) =~= s);
    } else {
        reveal_with_fuel(Seq::<_>::filter, 2);
        assert(pred(s.last()));
        assert forall|k: int| 0 <= k < s.drop_last().len() implies pred(
            #[trigger] s.drop_last()[k],
        ) by {
            assert(s.drop_last()[k] == s[k]);
        }
        lemma_filter_all(s.drop_last(), pred);
        assert(s.drop_last().push(s.last()) =~= s);
    }
}

/// A remove cycle run over any prior content yields content that loads to
/// the prior registry with exactly the records of that id dropped; when no
/// record carries the id, the registry is unchanged.
pub proof fn lemma_remove_then_load(content: Option<Seq<char>>, id: u64)
    ensures
        loaded_hosts(Some(render_hosts(loaded_hosts(content).filter(|h: HostV| h.id != id))))
            == loaded_hosts(content).filter(|h: HostV| h.id != id),
        (forall|k: int|
            0 <= k < loaded_hosts(content).len() ==> (#[trigger] loaded_hosts(content)[k]).id
                != id) ==> loaded_hosts(content).filter(|h: HostV| h.id != id) == loaded_hosts(
            content,
        ),
{
    lemma_parse_render_hosts(loaded_hosts(content).filter(|h: HostV| h.id != id));
    if forall|k: int|
        0 <= k < loaded_hosts(content).len() ==> (#[trigger] loaded_hosts(content)[k]).id != id {
        lemma_filter_all(loaded_hosts(content), |h: HostV| h.id != id);
    }
}

} // verus!
