# pcm_direct

Reading and writing the ring buffer of a memory-mapped ALSA PCM device without going through
alsa-lib.

`src/` is the verified library. It makes no system call and touches no shared memory: it is given
the status and control records as last read, and the buffer as a slice.

| module     | holds                                                                            |
|------------|----------------------------------------------------------------------------------|
| `pcm`      | frame counts, directions, access types, states                                   |
| `error`    | the error type                                                                   |
| `status`   | the record the kernel writes                                                     |
| `control`  | the record the application writes                                                |
| `mapping`  | requests for mappings of driver memory, and their answers                        |
| `open`     | the questions of an opening, and the opening of a record                         |
| `sample`   | the ring buffer, and its opening                                                 |
| `stream`   | the opening of a whole stream                                                    |
| `dir`      | playback and capture: how many frames are available                              |
| `ring`     | rings of cells                                                                   |
| `mmap`     | a stream: positions in the buffer, and committing                                |
| `playback` | writing samples                                                                  |
| `iter`     | reading samples                                                                  |
| `laws`     | what holds of a stream as a whole: its buffer is a queue                         |

`app/` maps the memory, asks the driver, and copies the records in and out.
