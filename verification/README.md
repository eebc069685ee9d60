# Yuri

Offline text-to-speech on a WebAssembly engine: the host side, with its
behaviour stated as contracts and proved by Verus.

The engine (`webtts.wasm`) is a guest that runs in a WebAssembly runtime. It
calls the host for files, for memory and to hand over audio, and the host calls
it to set a voice up and to speak. The library decides all of that on plain
values; the program around it runs the guest and does the input and output.

Audio format: 16-bit PCM, 22050 Hz, mono.

## Layout

- `src/`: the library.
  - `params`, `speech`: speech parameters, limits, and speaking a text.
  - `guest`, `documents`, `json`, `voices`: setting the engine up for a voice.
  - `dispatch`, `syscalls`, `runtime`, `state`, `memory`, `host`: what the engine
    calls.
  - `addon`, `install`, `engine`: where voice files and the compiled engine come
    from.
  - `cli`, `escape`, `wav`: the command line, its text and its files.
  - `num`, `text`, `utf16`: numbers and characters.
- `tests/`: tests of the library.
- `app/`: the command line program.

Functions named `law_..` state what holds of the library as a whole. What the
library takes on trust is marked `external_body` or `assume_specification`;
each such item says what it claims of the crate behind it.

## Program

The engine and the common voice files are compressed and embedded when the
program is built, from a directory `wasm` beside `Cargo.toml`: `webtts.wasm`,
and in `common/` the files `sysdct.dat`, `clm.dat`, `lid.dat` and
`synth_med_fxd_bet3f22.dat`. Compiled engines and unpacked voices are cached in
`~/.cache/yuri`, unless `--cache-dir` or `--no-cache` says otherwise.

```bash
yuri --text "Hello world" --voice-dir voicedata_enu
yuri --text "Hello world" --addon yuri.nvda-addon -o hello.wav
echo "Hello world" | yuri --voice-dir voicedata_enu --speed 200
```

| Parameter  | Range  | Default | Description       |
|------------|--------|---------|-------------------|
| `--speed`  | 50-400 | 100     | Speaking rate (%) |
| `--pitch`  | 50-200 | 100     | Voice pitch (%)   |
| `--volume` | 0-100  | 80      | Output volume     |
