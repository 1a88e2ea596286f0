# xdp_firmware

Firmware for an ESP32-C3 Wi-Fi station that filters received frames with a
hot-loaded XDP program, answers UDP datagrams on port 8080, and formats the
`bpf_printk` messages that the XDP program asks for.

- `src/` is the verified library:
  - `printk`: tokenizer of `bpf_printk` format strings (at most 16 tokens);
  - `message`: expansion of the tokens into a message of at most 256 bytes;
  - `helper`: the helper dispatcher and the `bpf_printk` helper (`log`);
  - `bounded`: the `heapless` containers that these fill;
  - `firewall`: which XDP return codes let a frame through, and the XDP context;
  - `udp`: what is sent back for a received datagram;
  - `link`: the decisions of the task that keeps the station connected;
  - `loader`: loading of the XDP program image into the hot-load area;
  - `station`: the seed of the network stack.
- `app/` holds the tasks, the network device wrapper, the raw helper entry
  point and the inline assembly that runs the XDP program.
- `tests/` exercises the library on concrete values.
