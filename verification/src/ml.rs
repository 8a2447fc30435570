//! What the ML policy bridge keeps and reports: its window of samples, its
//! errors and its counters.
use std::collections::VecDeque;
use vstd::prelude::*;
use vstd::string::StringExecFns;

verus! {

/// Errors of the ML policy bridge.
#[derive(Debug)]
pub enum MlBridgeError {
    ModelUnavailable,
    PredictionFailed(String),
    InvalidInput(String),
    Timeout,
}

/// The message of an error.
pub open spec fn error_message(e: MlBridgeError) -> Seq<char> {
    match e {
        MlBridgeError::ModelUnavailable => "Model not available"@,
        MlBridgeError::PredictionFailed(m) => "Prediction failed: "@ + m@,
        MlBridgeError::InvalidInput(m) => "Invalid input: "@ + m@,
        MlBridgeError::Timeout => "Timeout"@,
    }
}

impl MlBridgeError {
    /// The error's message.
    pub fn message(&self) -> (s: String)
        ensures
            s@ == error_message(*self),
    {
        match self {
            MlBridgeError::ModelUnavailable => String::from_str("Model not available"),
            MlBridgeError::PredictionFailed(m) => {
                let mut s = String::from_str("Prediction failed: ");
                s.append(m.as_str());
                s
            },
            MlBridgeError::InvalidInput(m) => {
                let mut s = String::from_str("Invalid input: ");
                s.append(m.as_str());
                s
            },
            MlBridgeError::Timeout => String::from_str("Timeout"),
        }
    }
}

/// The bridge's counters.
#[derive(Debug, Clone)]
pub struct MlBridgeStats {
    pub prediction_count: u64,
    pub fallback_count: u64,
    pub window_size: usize,
}


/// The window after `x` is pushed onto `s` with room for `size`: when full (or
/// when `size` is zero and a sample is there) the oldest sample leaves first.
pub open spec fn window_push<T>(s: Seq<T>, size: nat, x: T) -> Seq<T> {
    if s.len() >= size && s.len() > 0 {
        s.drop_first().push(x)
    } else {
        s.push(x)
    }
}

/// The window after each of `xs` is pushed in turn onto `s`.
pub open spec fn window_push_all<T>(s: Seq<T>, size: nat, xs: Seq<T>) -> Seq<T>
    decreases xs.len(),
{
    if xs.len() == 0 {
        s
    } else {
        window_push(window_push_all(s, size, xs.drop_last()), size, xs.last())
    }
}

/// How many samples a window with room for `size` holds at most: a window of
/// size zero still keeps the latest one.
pub open spec fn window_room(size: nat) -> nat {
    if size == 0 { 1 } else { size }
}

/// A sliding window of the latest samples, oldest first.
pub struct MetricsWindow<T> {
    features: VecDeque<T>,
    window_size: usize,
}

impl<T> MetricsWindow<T> {
    /// The samples held, oldest first.
    pub closed spec fn samples(&self) -> Seq<T> {
        self.features@
    }

    /// The room the window was made with.
    pub closed spec fn size(&self) -> nat {
        self.window_size as nat
    }

    /// An empty window with room for `window_size` samples.
    pub fn new(window_size: usize) -> (w: Self)
        ensures
            w.samples() == Seq::<T>::empty(),
            w.size() == window_size,
    {
        MetricsWindow { features: VecDeque::with_capacity(window_size), window_size }
    }

    /// Adds a sample, dropping the oldest when the window is full.
    pub fn push(&mut self, features: T)
        ensures
            final(self).samples() == window_push(old(self).samples(), old(self).size(), features),
            final(self).size() == old(self).size(),
    {
        if self.features.len() >= self.window_size && self.features.len() > 0 {
            let _ = self.features.pop_front();
        }
        self.features.push_back(features);
    }

    /// The latest sample, if any.
    pub fn latest(&self) -> (res: Option<&T>)
        ensures
            self.samples().len() == 0 ==> res is None,
            self.samples().len() > 0 ==> res == Some(&self.samples().last()),
    {
        let n = self.features.len();
        if n == 0 {
            None
        } else {
            Some(&self.features[n - 1])
        }
    }

    /// The sample at `index`, oldest first, if there is one.
    pub fn get(&self, index: usize) -> (res: Option<&T>)
        ensures
            index < self.samples().len() ==> res == Some(&self.samples()[index as int]),
            index >= self.samples().len() ==> res is None,
    {
        if index < self.features.len() {
            Some(&self.features[index])
        } else {
            None
        }
    }

    /// Whether the window holds as many samples as it has room for.
    pub fn is_full(&self) -> (b: bool)
        ensures
            b == (self.samples().len() >= self.size()),
    {
        self.features.len() >= self.window_size
    }

    /// The number of samples held.
    pub fn len(&self) -> (n: usize)
        ensures
            n == self.samples().len(),
    {
        self.features.len()
    }

    /// Whether the window holds no sample.
    pub fn is_empty(&self) -> (b: bool)
        ensures
            b == (self.samples().len() == 0),
    {
        self.features.len() == 0
    }
}

impl<T> Default for MetricsWindow<T> {
    /// A window with room for sixty samples.
    fn default() -> (w: Self)
        ensures
            w.samples() == Seq::<T>::empty(),
            w.size() == 60,
    {
        MetricsWindow::new(60)
    }
}

/// A window keeps the latest samples pushed onto it, oldest first, and no more
/// than its room: after pushing `xs` onto an empty window, it holds the last
/// `min(|xs|, room)` of them.
pub proof fn law_window_keeps_latest<T>(size: nat, xs: Seq<T>)
    ensures
        window_push_all(Seq::empty(), size, xs) == xs.subrange(
            xs.len() - (if xs.len() < window_room(size) { xs.len() as int } else { window_room(size) as int }),
            xs.len() as int,
        ),
    decreases xs.len(),
{
    if xs.len() > 0 {
        let ys = xs.drop_last();
        law_window_keeps_latest(size, ys);
        let room = window_room(size) as int;
        let prev = window_push_all(Seq::empty(), size, ys);
        let k = if ys.len() < room { ys.len() as int } else { room };
        assert(prev == ys.subrange(ys.len() - k, ys.len() as int));
        assert(prev.len() == k);
        if prev.len() >= size && prev.len() > 0 {
            assert(prev.drop_first().push(xs.last()) =~= xs.subrange(xs.len() - k, xs.len() as int));
        } else {
            assert(prev.push(xs.last()) =~= xs.subrange(xs.len() - (k + 1), xs.len() as int));
        }
    } else {
        assert(xs.subrange(0, 0) =~= Seq::<T>::empty());
    }
}

} // verus!
