# hallucinator-core

The domain logic of the hallucinator digital audio workstation, written in
Verus. The functions in `src/` carry contracts that Verus proves, with two
exceptions: the input meter's atomic level readings (`src/meter.rs`) carry
no contract, since nothing about the value of a shared atomic can be stated
there, and the lowercase form of a string (`to_lowercase` in
`src/library.rs`) is taken on trust from `str::to_lowercase`.

- `src/` is the verified library: euclidean rhythms, scales and chords,
  MIDI clips, pattern banks and song arrangements, the integer core of the
  MIDI effects (transpose, harmonize, swing, echo, arpeggiator), the step
  sequencer and piano-roll keyboard model, drum voice allocation, the
  sample-library listing, RIFF/WAV chunk parsing and sample decoding, and
  the decisions of the audio device and input-monitor services.
- `tests/` runs the library on concrete inputs.
- `app/` is the program around it: settings on disk, scanning sample folders,
  reading WAV files, the floating-point parts of the effects and of the
  mixer (tempo, gain, volume, sample values), and serde copies of the
  library's data types.
