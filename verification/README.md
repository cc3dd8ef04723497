# Galileo

Galileo is a faucet for Penumbra test tokens. It watches the channels of a Discord server for
Penumbra addresses, or listens for gRPC calls, and sends tokens to the addresses that it is given,
no more often than a rate limit allows.

* `src/` is the library: every rule by which the bot decides whom to answer, what to send and what
  to say. It is verified with Verus. Its laws are the public proof functions whose names start with
  `law_`: among them that a user waits out the rate limit, that no request is lost or sent twice,
  and that every address of a message is reported once.
* `tests/` runs the library on concrete values.
* `app/` is the program around it: the command line, Discord, gRPC, the Penumbra network.

What the library takes on trust are the contracts of a few functions of other crates: how `serenity`
writes mentions and reads channels, how `humantime` writes durations, what `toml` finds in a
document, what `num-traits` takes for zero, tokio's clock, and how the standard library quotes a
string. They are the items marked `external_body` and `assume_specification`.
