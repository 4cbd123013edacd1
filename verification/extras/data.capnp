@0xb2c5f1d09a7e4c63;

# What the server shows the agent that schedules its paths, in milliseconds.
struct Data {
  bestRtt @0 :UInt64;
  secondRtt @1 :UInt64;
}

# The agent. It answers 0 for the faster path, 1 for the slower one, and anything
# else to send nothing.
interface Scheduler @0xc1e5d86f0b7a3294 {
  nextPath @0 (d :Data) -> (path :UInt8);
}
