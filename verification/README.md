# brave-rotator

The verified core of a reverse proxy for the Brave Search API that spreads traffic over several
subscription keys and never lets a key run into Brave's rate limits blindly, and the program
around it.

`src/` is the library. It decides everything and touches nothing: it never reads a clock, a socket
or the environment. Callers pass in what they read and do what they are told. Every function has a
contract, and Verus proves it.

| Module | What it holds |
| --- | --- |
| `text`, `query`, `clock`, `header` | Strings, query strings, time and header maps as plain values |
| `ratelimit` | What Brave's rate-limit headers say |
| `key` | One key: its sliding window, monthly quota and health |
| `outcome` | What a response or a failure does to a key |
| `pool` | Rotation: which key a request gets, or when to ask again |
| `snapshot`, `report`, `notes` | What the pool reports about itself, and the lines of the log |
| `exchange` | One client request, from its first attempt to its answer |
| `proxy`, `reply`, `upstream` | What is passed on in either direction, and what is answered |
| `config` | The configuration, from environment variables |
| `laws`, `runs` | What holds of the pool as a whole, and over a run of calls on it |

Some statements are about several functions at once, such as that no key ever sends more than its
plan allows inside one window. They are proof functions whose names begin with `law_`; those about
the pool are in `laws` and `runs`, the others stand in the module they are about.

Calls into other crates (`http`, `humantime`, `serde_json`) and into parts of the standard library
stand behind small functions marked `external_body`. Their contracts are believed, not proved; each
names the function it calls.

`app/` is the program: the HTTP server and client, the clocks, the environment and the logs.
`tests/` runs the library.
