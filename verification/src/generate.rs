//! The random queue generator: samples the asset store uniformly with
//! replacement and interleaves pauses strictly between audio items.

use vstd::prelude::*;

use rand::Rng;

use crate::assets::AudioFiles;
use crate::items::{items_view, ItemModel, PlaylistTypes};

verus! {

/// Why a random queue could not be generated.
#[derive(Debug)]
pub enum GenerateError {
    /// The asset store holds no audio files.
    NoAssetsAvailable,
}

/// Relies on rand::thread_rng and rand::Rng::gen_range: an index drawn
/// below `n`. The draw depends on the thread's generator state, so
/// nothing is promised beyond the range; `gen_range` panics on an empty
/// range, which the precondition rules out.
#[verifier::external_body]
fn random_index_below(n: usize) -> (r: usize)
    requires
        n > 0,
    ensures
        r < n,
{
    rand::thread_rng().gen_range(0..n)
}

/// Whether an item is an audio reference that resolves in the store.
pub open spec fn audio_in_store(it: ItemModel, assets: AudioFiles) -> bool {
    match it {
        ItemModel::Audio(name) => assets.contains_name(name),
        ItemModel::Pause(_) => false,
    }
}

/// The shape of a generated queue of `file_count` audio items with break
/// `break_ms`: audio items resolving in the store at even positions,
/// `Pause(break_ms)` strictly between them (never leading or trailing),
/// and no pauses at all when `break_ms` is zero.
pub open spec fn random_queue_shape(
    qv: Seq<ItemModel>,
    assets: AudioFiles,
    file_count: int,
    break_ms: u32,
) -> bool {
    &&& qv.len() == if break_ms > 0 && file_count > 0 {
        2 * file_count - 1
    } else {
        file_count
    }
    &&& forall|i: int|
        0 <= i < qv.len() ==> if break_ms > 0 && i % 2 == 1 {
            #[trigger] qv[i] == ItemModel::Pause(break_ms)
        } else {
            audio_in_store(qv[i], assets)
        }
}

/// Samples `file_count` asset names uniformly with replacement and, when
/// `break_ms > 0`, inserts `Pause(break_ms)` strictly between consecutive
/// audio items. Fails exactly when the asset store is empty.
pub fn generate_random_audio_queue(assets: &AudioFiles, file_count: u32, break_ms: u32) -> (r:
    Result<Vec<PlaylistTypes>, GenerateError>)
    requires
        assets.inv(),
    ensures
        r is Err <==> assets.assets().len() == 0,
        match r {
            Ok(q) => random_queue_shape(items_view(q@), *assets, file_count as int, break_ms),
            Err(e) => e is NoAssetsAvailable,
        },
{
    let n = assets.len();
    if n == 0 {
        return Err(GenerateError::NoAssetsAvailable);
    }
    let mut queue: Vec<PlaylistTypes> = Vec::new();
    let mut k: u32 = 0;
    proof {
        assert(items_view(queue@) =~= Seq::<ItemModel>::empty());
    }
    while k < file_count
        invariant
            0 <= k <= file_count,
            n == assets.assets().len(),
            n > 0,
            assets.inv(),
            items_view(queue@).len() == if break_ms > 0 && k > 0 {
                2 * (k as int) - 1
            } else {
                k as int
            },
            forall|i: int|
                0 <= i < items_view(queue@).len() ==> if break_ms > 0 && i % 2 == 1 {
                    #[trigger] items_view(queue@)[i] == ItemModel::Pause(break_ms)
                } else {
                    audio_in_store(items_view(queue@)[i], *assets)
                },
        decreases file_count - k,
    {
        let ghost qv0 = items_view(queue@);
        if k > 0 && break_ms > 0 {
            queue.push(PlaylistTypes::Pause(break_ms));
            proof {
                assert(items_view(queue@) =~= qv0.push(ItemModel::Pause(break_ms)));
            }
        }
        let ghost qv1 = items_view(queue@);
        let idx = random_index_below(n);
        let name = assets.name_at(idx).clone();
        proof {
            assert(assets.contains_name(name@));
        }
        queue.push(PlaylistTypes::AudioFiles(name));
        proof {
            assert(items_view(queue@) =~= qv1.push(ItemModel::Audio(name@)));
        }
        k = k + 1;
    }
    Ok(queue)
}

} // verus!
