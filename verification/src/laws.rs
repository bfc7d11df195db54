//! Laws of the training process, stated over the model's mathematical
//! state and proved once for every dataset and epoch count.

use vstd::prelude::*;

verus! {

use crate::model::epoch_of;
use crate::model::lemma_epoch_preserves_wf;
use crate::model::lemma_loss_of_nonneg;
use crate::model::loss_of;
use crate::model::train_of;
use crate::model::train_ok;
use crate::model::wf;
use crate::model::ModelView;

/// The dataset is immutable: no number of epochs changes `x` or `y`.
pub proof fn lemma_dataset_fixed(m: ModelView, k: nat)
    ensures
        train_of(m, k).x == m.x,
        train_of(m, k).y == m.y,
    decreases k,
{
    if k > 0 {
        lemma_dataset_fixed(epoch_of(m), (k - 1) as nat);
    }
}

/// Zero-epoch idempotence: training for zero epochs changes nothing, and
/// is always within range.
pub proof fn lemma_zero_epochs(m: ModelView)
    ensures
        train_of(m, 0) == m,
        train_ok(m, 0),
{
}

/// Determinism: the trajectory is a function of the dataset, the initial
/// parameters and the epoch count alone, so two models that start equal
/// stay equal after any number of epochs.
pub proof fn lemma_deterministic(m1: ModelView, m2: ModelView, k: nat)
    requires
        m1 == m2,
    ensures
        train_of(m1, k) == train_of(m2, k),
        train_ok(m1, k) == train_ok(m2, k),
{
}

/// Loss/residual consistency: after any completed epoch, the recorded
/// loss is the mean of the squares of the residuals recorded by that
/// same epoch (computed before the epoch's parameter update).
pub proof fn lemma_loss_consistency(m: ModelView, k: nat)
    requires
        1 <= k,
    ensures
        train_of(m, k).loss == loss_of(
            train_of(m, k).residuals,
            train_of(m, k).x.len() as int,
        ),
    decreases k,
{
    if k == 1 {
        assert(train_of(m, 1) == train_of(epoch_of(m), 0));
        lemma_dataset_fixed(m, 1);
    } else {
        lemma_loss_consistency(epoch_of(m), (k - 1) as nat);
        assert(train_of(m, k) == train_of(epoch_of(m), (k - 1) as nat));
    }
}

/// Residual identity: after any completed epoch, each recorded residual
/// is exactly the recorded prediction minus the matching target.
pub proof fn lemma_residual_identity(m: ModelView, k: nat)
    requires
        1 <= k,
    ensures
        train_of(m, k).residuals.len() == train_of(m, k).predictions.len(),
        forall|i: int|
            0 <= i < train_of(m, k).residuals.len() ==> #[trigger] train_of(m, k).residuals[i]
                == train_of(m, k).predictions[i] - train_of(m, k).y[i],
    decreases k,
{
    if k == 1 {
        assert(train_of(m, 1) == train_of(epoch_of(m), 0));
        lemma_dataset_fixed(m, 1);
    } else {
        lemma_residual_identity(epoch_of(m), (k - 1) as nat);
        assert(train_of(m, k) == train_of(epoch_of(m), (k - 1) as nat));
    }
}

/// Loss non-negativity: from any state whose recorded loss is not
/// negative and whose dataset is not empty, the loss stays at least zero
/// after any number of epochs.
pub proof fn lemma_loss_nonnegative(m: ModelView, k: nat)
    requires
        0 <= m.loss,
        1 <= m.x.len(),
    ensures
        0 <= train_of(m, k).loss,
    decreases k,
{
    if k > 0 {
        lemma_loss_consistency(m, k);
        lemma_dataset_fixed(m, k);
        lemma_loss_of_nonneg(train_of(m, k).residuals, train_of(m, k).x.len() as int);
    }
}

/// Well-formedness is an invariant of training, as long as every epoch
/// stays within the fixed-point range.
pub proof fn lemma_train_preserves_wf(m: ModelView, k: nat)
    requires
        wf(m),
        train_ok(m, k),
    ensures
        wf(train_of(m, k)),
    decreases k,
{
    if k > 0 {
        lemma_epoch_preserves_wf(m);
        lemma_train_preserves_wf(epoch_of(m), (k - 1) as nat);
    }
}

} // verus!
