# librados

A client for Ceph's RADOS whose decisions are verified with Verus.

The library under `src/` does no I/O. An operation is split where librados is called. The first
half checks the arguments and makes the call as a plain value; the second half takes what the call
returned and makes the result of it. An operation that may have to call librados again, such as
reading an xattr of unknown size, is a state machine whose `step` gives the next call or the end.

| module | holds |
| --- | --- |
| `conn` | cluster handles, pools, the blocklist |
| `ioctx` | objects, xattrs and single omap operations |
| `locks` | advisory locks and their holders |
| `watch` | watches, notifications and their answers |
| `write_op`, `read_op` | compound operations |
| `omap` | pages of keys and values, and how they are read in turn |
| `object` | what writes make of an object |
| `answers` | what reads bring back of what an object holds |
| `byte_map` | ordered maps and sets of byte strings |
| `cstring`, `packed` | C strings, and buffers of several of them |
| `duration` | lengths of time in the forms that librados takes |
| `error`, `next`, `nullable` | errors, what follows a call, arrays that may be null |

The crate under `app/` is the client itself: it declares librados's functions, makes the calls and
owns the handles. It also owns the one source from which read ops draw their numbers. The one outside function whose behaviour the proofs take on trust is
`String::from_utf8_lossy`, in `packed`.
