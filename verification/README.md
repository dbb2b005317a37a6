# aleph_bft

The deciding parts of an asynchronous, Byzantine fault tolerant consensus protocol, written and
verified with Verus. Members of a committee create units, each of which commits to units of the
round before; every member gathers the units of all the others into a dag and reports those who
fork. Electing the heads that put the units into one total order is left to whoever provides an
extender; what is here reports the batches that come out of it.

Everything in `src/` is a function from a state and an event to a new state and the actions to be
taken. Each such function says exactly what it does, over mathematical models of units, alerts,
backups and schedules, and the properties that connect several of them stand beside them as public
proof functions whose names begin with `law_`.

- `scale`, `codec_error`, `data`, `collections`, `nodes`, `text`, `duration`, `clock`: encodings,
  what is wrong with bytes, containers and other foundations.
- `crypto`, `signed`: what the users of the library provide to hash and sign, and values that are
  known to be correctly signed.
- `units`: units, the checks they have to pass and the store of those that did.
- `creation`, `reconstruction`, `dag`: creating units, finding their parents, and returning all of
  them, parents first.
- `extension`: reporting the units of an ordered batch.
- `alerts`, `rmc`: alerts about forks and the reliable multicast of their hashes.
- `backup`, `runway`: saving and loading, and the handling of the units that come in.
- `dissemination`, `member`, `task_queue`: sending units around and asking for missing ones.
- `terminator`: shutting components down together.
- `mock`: keys, hashes and networks to try it all out with.

`app/` runs these parts as asynchronous tasks, and `tests/` exercises the library from outside.
