//! Small helpers for working with sequences of results.

use vstd::prelude::*;

verus! {

/// The position of the first failure in `items`, if one failed.
pub open spec fn first_failure<I, E>(items: Seq<Result<I, E>>) -> Option<int>
    decreases items.len(),
{
    if items.len() == 0 {
        None
    } else if items[0] is Err {
        Some(0)
    } else {
        match first_failure(items.drop_first()) {
            Some(i) => Some(i + 1),
            None => None,
        }
    }
}

/// The values of `items`, which must all have succeeded.
pub open spec fn values_of<I, E>(items: Seq<Result<I, E>>) -> Seq<I> {
    Seq::new(items.len(), |i: int| items[i]->Ok_0)
}

/// `v` in the opposite order.
pub fn reversed<T>(v: Vec<T>) -> (r: Vec<T>)
    ensures
        r@ == v@.reverse(),
{
    let mut v = v;
    let mut r: Vec<T> = Vec::new();
    let ghost all = v@;
    proof {
        assert(all.take(all.len() as int) =~= all);
        assert(all.skip(all.len() as int).reverse() =~= Seq::<T>::empty());
    }
    loop
        invariant
            v@.len() <= all.len(),
            v@ == all.take(v@.len() as int),
            r@ == all.skip(v@.len() as int).reverse(),
        ensures
            r@ == all.reverse(),
        decreases v@.len(),
    {
        let ghost n = v@.len() as int;
        match v.pop() {
            Some(x) => {
                proof {
                    assert(all.take(n).drop_last() =~= all.take(n - 1));
                    assert(x == all[n - 1]);
                    assert(all.skip(n - 1).reverse() =~= all.skip(n).reverse().push(all[n - 1]));
                }
                r.push(x);
            },
            None => {
                proof {
                    assert(all.skip(0) =~= all);
                }
                break ;
            },
        }
    }
    r
}

/// Gathering what succeeded up to the first failure.
pub trait ResultIterExt<I, E>: Sized {
    /// The results.
    spec fn items(&self) -> Seq<Result<I, E>>;

    /// All values if nothing failed, and the first failure if not.
    fn collect_result(self) -> (r: Result<Vec<I>, E>)
        ensures
            match r {
                Ok(values) => first_failure(self.items()) is None && values@ == values_of(
                    self.items(),
                ),
                Err(e) => first_failure(self.items()) matches Some(k) && self.items()[k] == Err::<
                    I,
                    E,
                >(e),
            },
    ;

    /// Puts the values behind what `target` holds, up to the first failure,
    /// which is handed out.
    fn collect_result_into(self, target: &mut Vec<I>) -> (r: Result<(), E>)
        ensures
            match r {
                Ok(_) => first_failure(self.items()) is None && final(target)@ == old(target)@
                    + values_of(self.items()),
                Err(e) => first_failure(self.items()) matches Some(k) && self.items()[k] == Err::<
                    I,
                    E,
                >(e) && final(target)@ == old(target)@ + values_of(self.items().take(k)),
            },
    ;
}

impl<I, E> ResultIterExt<I, E> for Vec<Result<I, E>> {
    open spec fn items(&self) -> Seq<Result<I, E>> {
        self@
    }

    fn collect_result(self) -> (r: Result<Vec<I>, E>) {
        let mut values: Vec<I> = Vec::new();
        let ghost all = self@;
        match self.collect_result_into(&mut values) {
            Ok(_) => {
                proof {
                    assert(values@ =~= values_of(all));
                }
                Ok(values)
            },
            Err(e) => Err(e),
        }
    }

    fn collect_result_into(self, target: &mut Vec<I>) -> (r: Result<(), E>) {
        let ghost all = self@;
        let ghost start = target@;
        let n = self.len();
        let mut rest = reversed(self);
        let mut i: usize = 0;
        proof {
            assert(all.skip(0) =~= all);
            assert(start + values_of(all.take(0)) =~= start);
            assert(all.reverse().take(all.len() as int) =~= all.reverse());
        }
        loop
            invariant
                i <= all.len(),
                all.len() == n,
                all == self@,
                start == old(target)@,
                rest@ == all.reverse().take(all.len() - i),
                target@ == start + values_of(all.take(i as int)),
                first_failure(all) == match first_failure(all.skip(i as int)) {
                    Some(k) => Some(k + i),
                    None => None,
                },
            ensures
                i == all.len(),
                first_failure(all) is None,
                target@ == start + values_of(all),
            decreases all.len() - i,
        {
            let ghost held = rest@;
            match rest.pop() {
                Some(item) => {
                    proof {
                        assert(held.last() == all.reverse()[all.len() - i - 1]);
                        assert(item == all[i as int]);
                        assert(rest@ =~= all.reverse().take(all.len() - i - 1));
                        assert(all.skip(i as int)[0] == all[i as int]);
                        assert(all.skip(i as int).drop_first() =~= all.skip(i + 1));
                    }
                    match item {
                        Ok(value) => {
                            proof {
                                assert(values_of(all.take(i + 1)) =~= values_of(
                                    all.take(i as int),
                                ).push(value));
                            }
                            target.push(value);
                        },
                        Err(e) => {
                            proof {
                                assert(first_failure(all.skip(i as int)) == Some(0int));
                            }
                            return Err(e);
                        },
                    }
                    i = i + 1;
                },
                None => {
                    proof {
                        assert(all.skip(i as int) =~= Seq::<Result<I, E>>::empty());
                        assert(all.take(i as int) =~= all);
                    }
                    break ;
                },
            }
        }
        Ok(())
    }
}

} // verus!
