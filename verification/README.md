# quetzalcoatl

Bounded ring buffers, verified with Verus.

| module      | producers | consumers | order                                      |
|-------------|-----------|-----------|--------------------------------------------|
| `spsc`      | one       | one       | first in, first out                        |
| `mpsc`      | many      | one       | in the order of the claims                 |
| `spmc`      | one       | many      | each consumer sees the order of the pushes |
| `mpmc`      | many      | many      | none; every value comes out once           |
| `mpmc_scan` | many      | many      | none; nobody sleeps                        |

Each ring is plain state, and each operation one indivisible step on it. A
handle holds what is private to its endpoint and takes the ring it works on
as an argument. Operations that block return one lap at a time and say
whether to go on, to spin or to park; asynchronous ones return one poll.
Whom a step has to wake is recorded in the ring and collected from it.

The contracts speak of an abstract model of each ring (`QueueModel`,
`ClaimModel`, `ShareModel`, `RingModel`, `ScanModel`). What holds over
several calls stands in the `laws` module of each ring, over the whole life
of a ring with many ends on both sides in its `session` module, and for
waiters in `common::park`.

`app/` shares the rings between threads and tasks: it locks a ring for each
step, and does the sleeping and the waking.
